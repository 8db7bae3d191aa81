use agent_evaluation::config::{
    AgentInfo, AgentMode, EvalConfig, ExecutionConfig, ModelInfo, SubprocessConfig,
};
use agent_evaluation::runner::{CliEvalRunner, CliRunnerOptions};
use agent_evaluation::scenario::{
    EvalScenario, EvalScenarioSuite, EvalVariation, ScenarioRubric, VariationRubric,
};
use agent_evaluation::command::PipelineError;
use agent_evaluation::suite_run::{rate_limit_wait_secs, should_retry, Action, Event, SuiteRun};

fn config(trials: u32, retries: u32, delay_ms: u64, backoff: u64) -> EvalConfig {
    EvalConfig {
        agent: AgentInfo { id: "gestura-full".into(), name: "Gestura".into(), mode: AgentMode::Autonomous },
        model: ModelInfo { provider: "anthropic".into(), name: "sonnet".into() },
        subprocess: SubprocessConfig {
            bin: Some("gestura".into()),
            args_prefix: vec!["exec".into()],
            env: vec![],
            response_strip_prefix: None,
        },
        execution: ExecutionConfig {
            trials,
            retries,
            timeout_secs: 30,
            delay_between_variations_ms: delay_ms,
            rate_limit_backoff_secs: backoff,
        },
        variation_overrides: vec![],
    }
}

fn scenario(id: &str, variations: usize) -> EvalScenario {
    EvalScenario {
        id: id.into(),
        name: format!("{} name", id),
        category: "general".into(),
        rubric: ScenarioRubric { tools_enabled: true },
        variations: (0..variations)
            .map(|i| EvalVariation {
                id: format!("v{}", i + 1),
                prompt: format!("prompt {}", i),
                history: vec![],
                rubric: VariationRubric { expected_keywords: vec![], min_words: None, max_words: None, checks: vec![] },
            })
            .collect(),
    }
}

fn describe(a: &Action) -> String {
    match a {
        Action::ProfileStarted { total_variations } => format!("start {}", total_variations),
        Action::TrialStarted { scenario, variation, trial, total_trials } => {
            format!("trial {}/{} {}/{}", scenario, variation, trial, total_trials)
        }
        Action::Invoke { scenario, variation } => format!("invoke {}/{}", scenario, variation),
        Action::RateLimitRetry { attempt, max_attempts, wait_secs, .. } => {
            format!("retry {}/{} wait {}", attempt, max_attempts, wait_secs)
        }
        Action::Evaluate { scenario, variation, response, pipeline_error } => {
            format!(
                "evaluate {}/{} {:?} {:?}",
                scenario,
                variation,
                response,
                pipeline_error.as_ref().map(|e| e.text())
            )
        }
        Action::Sleep { ms } => format!("sleep {}", ms),
        Action::VariationDone { scenario, variation, passed, passed_trials, total_trials, duration_ms } => format!(
            "variation {}/{} passed={} {}/{} {}ms",
            scenario, variation, passed, passed_trials, total_trials, duration_ms
        ),
        Action::ScenarioDone { scenario, passed_variations, total_variations } => {
            format!("scenario {} passed {}/{}", scenario, passed_variations, total_variations)
        }
        Action::Finished => "finished".into(),
    }
}

fn stderr(text: &str) -> PipelineError {
    PipelineError::Stderr { text: text.into() }
}

/// Drives a run: `agent` answers each invocation, `verdict` scores each response.
fn drive(
    mut run: SuiteRun,
    mut agent: impl FnMut() -> (String, Option<PipelineError>),
    mut verdict: impl FnMut(&str) -> bool,
) -> Vec<String> {
    let mut log = Vec::new();
    let mut action = run.step(Event::Start);
    loop {
        log.push(describe(&action));
        let event = match &action {
            Action::Finished => break,
            Action::Invoke { .. } => {
                let (response, pipeline_error) = agent();
                Event::AgentReturned { response, pipeline_error }
            }
            Action::Evaluate { response, .. } => Event::Evaluated { passed: verdict(response), duration_ms: 10 },
            _ => Event::Continue,
        };
        assert!(run.accepts_event(&event));
        action = run.step(event);
        assert!(log.len() < 10_000, "run did not finish");
    }
    assert!(run.is_finished());
    log
}

fn runner(cfg: EvalConfig, dry_run: bool, ids: Vec<String>) -> CliEvalRunner {
    let mut o = CliRunnerOptions::new(cfg);
    o.dry_run = dry_run;
    o.scenario_ids = ids;
    CliEvalRunner::new(o)
}

#[test]
fn dry_run_scores_stubs_and_never_invokes() {
    let suite = EvalScenarioSuite { scenarios: vec![scenario("s1", 2), scenario("s2", 1)] };
    let (header, run) = runner(config(1, 3, 0, 5), true, vec![]).run_suite(&suite);
    assert!(header.dry_run);
    let log = drive(run, || panic!("agent launched in a dry run"), |_| true);
    assert_eq!(
        log,
        vec![
            "start 3",
            "trial 0/0 1/1",
            "evaluate 0/0 \"[DRY-RUN stub — s1 / v1] Placeholder response for check-logic validation.\" None",
            "variation 0/0 passed=true 1/1 10ms",
            "trial 0/1 1/1",
            "evaluate 0/1 \"[DRY-RUN stub — s1 / v2] Placeholder response for check-logic validation.\" None",
            "variation 0/1 passed=true 1/1 10ms",
            "scenario 0 passed 2/2",
            "trial 1/0 1/1",
            "evaluate 1/0 \"[DRY-RUN stub — s2 / v1] Placeholder response for check-logic validation.\" None",
            "variation 1/0 passed=true 1/1 10ms",
            "scenario 1 passed 1/1",
            "finished",
        ]
    );
}

#[test]
fn trials_pause_between_but_not_after_the_last() {
    let suite = EvalScenarioSuite { scenarios: vec![scenario("s1", 1)] };
    let (_, run) = runner(config(3, 0, 250, 5), false, vec![]).run_suite(&suite);
    let log = drive(run, || ("fine".into(), None), |_| true);
    assert_eq!(
        log,
        vec![
            "start 1",
            "trial 0/0 1/3",
            "invoke 0/0",
            "evaluate 0/0 \"fine\" None",
            "sleep 250",
            "trial 0/0 2/3",
            "invoke 0/0",
            "evaluate 0/0 \"fine\" None",
            "sleep 250",
            "trial 0/0 3/3",
            "invoke 0/0",
            "evaluate 0/0 \"fine\" None",
            "variation 0/0 passed=true 3/3 30ms",
            "sleep 250",
            "scenario 0 passed 1/1",
            "finished",
        ]
    );
}

#[test]
fn majority_of_trials_decides_a_variation() {
    let suite = EvalScenarioSuite { scenarios: vec![scenario("s1", 2)] };
    let (_, run) = runner(config(3, 0, 0, 5), false, vec![]).run_suite(&suite);
    // Trial verdicts in order: pass, fail, pass | fail, fail, pass.
    let mut verdicts = vec![true, false, true, false, false, true].into_iter();
    let log = drive(run, || ("answer".into(), None), move |_| verdicts.next().unwrap());
    assert!(log.contains(&"variation 0/0 passed=true 2/3 30ms".to_string()));
    assert!(log.contains(&"variation 0/1 passed=false 1/3 30ms".to_string()));
    assert!(log.contains(&"scenario 0 passed 1/2".to_string()));
}

#[test]
fn even_split_of_trials_fails() {
    let suite = EvalScenarioSuite { scenarios: vec![scenario("s1", 1)] };
    let (_, run) = runner(config(2, 0, 0, 5), false, vec![]).run_suite(&suite);
    let mut verdicts = vec![true, false].into_iter();
    let log = drive(run, || ("answer".into(), None), move |_| verdicts.next().unwrap());
    assert!(log.contains(&"variation 0/0 passed=false 1/2 20ms".to_string()));
}

#[test]
fn zero_trials_count_as_one() {
    let suite = EvalScenarioSuite { scenarios: vec![scenario("s1", 1)] };
    let (_, run) = runner(config(0, 0, 0, 5), false, vec![]).run_suite(&suite);
    let log = drive(run, || ("answer".into(), None), |_| true);
    assert!(log.contains(&"trial 0/0 1/1".to_string()));
    assert!(log.contains(&"variation 0/0 passed=true 1/1 10ms".to_string()));
}

#[test]
fn rate_limited_attempts_back_off_then_give_up() {
    let suite = EvalScenarioSuite { scenarios: vec![scenario("s1", 1)] };
    let (_, run) = runner(config(1, 5, 0, 5), false, vec![]).run_suite(&suite);
    let log = drive(
        run,
        || (String::new(), Some(stderr("Error: 429 Too Many Requests"))),
        |_| false,
    );
    assert_eq!(
        log,
        vec![
            "start 1",
            "trial 0/0 1/1",
            "invoke 0/0",
            "retry 1/6 wait 5",
            "invoke 0/0",
            "retry 2/6 wait 10",
            "invoke 0/0",
            "retry 3/6 wait 20",
            "invoke 0/0",
            "retry 4/6 wait 40",
            "invoke 0/0",
            "retry 5/6 wait 40",
            "invoke 0/0",
            "evaluate 0/0 \"\" Some(\"Error: 429 Too Many Requests\")",
            "variation 0/0 passed=false 0/1 10ms",
            "scenario 0 passed 0/1",
            "finished",
        ]
    );
}

#[test]
fn retry_succeeds_after_rate_limit_in_stdout() {
    let suite = EvalScenarioSuite { scenarios: vec![scenario("s1", 1)] };
    let (_, run) = runner(config(1, 2, 0, 1), false, vec![]).run_suite(&suite);
    let mut outputs = vec![
        ("rate limit reached, try later".to_string(), None),
        ("the answer".to_string(), None),
    ]
    .into_iter();
    let log = drive(run, move || outputs.next().unwrap(), |r| r == "the answer");
    assert!(log.contains(&"retry 1/3 wait 1".to_string()));
    assert!(log.contains(&"evaluate 0/0 \"the answer\" None".to_string()));
    assert!(log.contains(&"variation 0/0 passed=true 1/1 10ms".to_string()));
}

#[test]
fn silent_crash_is_retried_but_timeout_is_not() {
    let suite = EvalScenarioSuite { scenarios: vec![scenario("s1", 1)] };
    let (_, run) = runner(config(1, 1, 0, 2), false, vec![]).run_suite(&suite);
    let silent = || (String::new(), Some(PipelineError::SilentExit { status: "exit status: 1".into() }));
    let log = drive(run, silent, |_| false);
    assert!(log.contains(&"retry 1/2 wait 2".to_string()));

    let (_, run) = runner(config(1, 1, 0, 2), false, vec![]).run_suite(&suite);
    let timeout = || (String::new(), Some(PipelineError::Failure { message: "timeout after 30s".into() }));
    let log = drive(run, timeout, |_| false);
    assert!(!log.iter().any(|l| l.starts_with("retry")));

    let (_, run) = runner(config(1, 1, 0, 2), false, vec![]).run_suite(&suite);
    let log = drive(run, || (String::new(), Some(stderr("exit handler crashed"))), |_| false);
    assert!(!log.iter().any(|l| l.starts_with("retry")));
}

#[test]
fn no_retries_means_one_attempt() {
    let suite = EvalScenarioSuite { scenarios: vec![scenario("s1", 1)] };
    let (_, run) = runner(config(1, 0, 0, 2), false, vec![]).run_suite(&suite);
    let log = drive(run, || (String::new(), Some(stderr("overloaded"))), |_| false);
    assert_eq!(log.iter().filter(|l| l.starts_with("invoke")).count(), 1);
}

#[test]
fn scenario_filter_and_empty_scenarios() {
    let suite = EvalScenarioSuite {
        scenarios: vec![scenario("s1", 1), scenario("s2", 0), scenario("s3", 2)],
    };
    let (_, run) = runner(config(1, 0, 0, 1), true, vec!["s2".into(), "s3".into()]).run_suite(&suite);
    let log = drive(run, || unreachable!(), |_| true);
    assert_eq!(log[0], "start 2");
    assert_eq!(log[1], "scenario 1 passed 0/0");
    assert!(log.contains(&"variation 2/1 passed=true 1/1 10ms".to_string()));
    // Nothing of the unselected first scenario is run or reported.
    assert!(!log.iter().any(|l| (l.contains(" 0/") && !l.starts_with("scenario")) || l.starts_with("scenario 0 ")));
    assert_eq!(log.last().unwrap(), "finished");
}

#[test]
fn empty_suite_starts_and_finishes() {
    let suite = EvalScenarioSuite { scenarios: vec![] };
    let (_, run) = runner(config(1, 0, 0, 1), false, vec![]).run_suite(&suite);
    let log = drive(run, || unreachable!(), |_| true);
    assert_eq!(log, vec!["start 0", "finished"]);
}

#[test]
fn backoff_doubles_up_to_eight_fold_and_saturates() {
    assert_eq!(rate_limit_wait_secs(3, 1), 3);
    assert_eq!(rate_limit_wait_secs(3, 2), 6);
    assert_eq!(rate_limit_wait_secs(3, 3), 12);
    assert_eq!(rate_limit_wait_secs(3, 4), 24);
    assert_eq!(rate_limit_wait_secs(3, 9), 24);
    assert_eq!(rate_limit_wait_secs(u64::MAX / 2, 3), u64::MAX);
    assert_eq!(rate_limit_wait_secs(0, 4), 0);
}

#[test]
fn retry_decision() {
    assert!(should_retry("", Some(&stderr("HTTP 429"))));
    assert!(should_retry("Too Many Requests", None));
    assert!(should_retry("   ", Some(&PipelineError::SilentExit { status: "exit status: 137".into() })));
    assert!(!should_retry("   ", Some(&stderr("exit status: 137"))));
    assert!(!should_retry("partial", Some(&PipelineError::ExitStatus { status: "exit status: 1".into() })));
    assert!(should_retry("", Some(&PipelineError::ExitStatus { status: "429".into() })));
    assert!(!should_retry("ok", None));
}

#[test]
fn events_out_of_turn_are_refused() {
    let suite = EvalScenarioSuite { scenarios: vec![scenario("s1", 1)] };
    let (_, mut run) = runner(config(1, 0, 0, 1), false, vec![]).run_suite(&suite);
    assert!(!run.accepts_event(&Event::Continue));
    assert!(run.accepts_event(&Event::Start));
    run.step(Event::Start);
    assert!(run.accepts_event(&Event::Continue));
    assert!(!run.accepts_event(&Event::Evaluated { passed: true, duration_ms: 1 }));
}

#[test]
fn eight_scenarios_of_three_variations_make_twenty_four_invocations() {
    let scenarios: Vec<EvalScenario> = (1..=8).map(|i| scenario(&format!("s{}", i), 3)).collect();
    let suite = EvalScenarioSuite { scenarios };
    let (_, run) = runner(config(1, 0, 0, 1), false, vec![]).run_suite(&suite);
    let log = drive(run, || ("answer".into(), None), |_| true);
    assert_eq!(log[0], "start 24");
    assert_eq!(log.iter().filter(|l| l.starts_with("invoke")).count(), 24);
    assert_eq!(log.iter().filter(|l| l.starts_with("scenario")).count(), 8);
}
