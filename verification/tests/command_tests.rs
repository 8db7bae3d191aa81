use agent_evaluation::command::{
    fresh_workdir_name, interpret_exit, is_ci_var, is_silent_transient_failure, lookup_env, plan_env,
    read_outcome, workdir_name, EnvOp, PipelineError, RunOutcome,
};
use agent_evaluation::config::{
    AgentInfo, AgentMode, EvalConfig, ExecutionConfig, ModelInfo, SubprocessConfig,
};
use agent_evaluation::runner::{CliEvalRunner, CliRunnerOptions};
use agent_evaluation::scenario::{
    ChatMessage, EvalScenario, EvalVariation, ScenarioRubric, VariationRubric,
};
use std::collections::BTreeMap;

fn pairs(v: &[(&str, &str)]) -> Vec<(String, String)> {
    v.iter().map(|(k, v)| (k.to_string(), v.to_string())).collect()
}

/// The environment a child sees after the operations are applied in order.
fn apply(parent: &[(String, String)], ops: &[EnvOp]) -> BTreeMap<String, String> {
    let mut env: BTreeMap<String, String> = parent.iter().cloned().collect();
    for op in ops {
        match op {
            EnvOp::Assign { key, value } => {
                env.insert(key.clone(), value.clone());
            }
            EnvOp::Unset { key } => {
                env.remove(key);
            }
        }
    }
    env
}

#[test]
fn ci_variables_are_recognised() {
    assert!(is_ci_var("CI"));
    assert!(is_ci_var("GITHUB_WORKSPACE"));
    assert!(is_ci_var("RUNNER_OS"));
    assert!(!is_ci_var("CIRCLE"));
    assert!(!is_ci_var("HOME"));
    assert!(!is_ci_var("MY_GITHUB_TOKEN"));
}

#[test]
fn lookup_env_finds_value() {
    let p = pairs(&[("A", "1"), ("B", "2")]);
    assert_eq!(lookup_env(&p, "B"), Some("2".to_string()));
    assert_eq!(lookup_env(&p, "C"), None);
}

#[test]
fn agent_environment_strips_ci_and_forwards_credentials() {
    let profile = pairs(&[("ANTHROPIC_API_KEY", ""), ("MODE", "fast"), ("CI", "profile")]);
    let parent = pairs(&[
        ("HOME", "/home/u"),
        ("CI", "true"),
        ("GITHUB_WORKSPACE", "/repo"),
        ("RUNNER_TEMP", "/tmp/r"),
        ("ANTHROPIC_API_KEY", "sk-parent"),
        ("OPENAI_API_KEY", "sk-openai"),
    ]);
    let ops = plan_env(&profile, &parent, false);
    let child = apply(&parent, &ops);
    assert_eq!(child.get("HOME").map(String::as_str), Some("/home/u"));
    assert!(!child.contains_key("CI"));
    assert!(!child.contains_key("GITHUB_WORKSPACE"));
    assert!(!child.contains_key("RUNNER_TEMP"));
    assert_eq!(child.get("ANTHROPIC_API_KEY").map(String::as_str), Some("sk-parent"));
    assert_eq!(child.get("OPENAI_API_KEY").map(String::as_str), Some("sk-openai"));
    assert_eq!(child.get("MODE").map(String::as_str), Some("fast"));
    assert_eq!(child.get("GESTURA_TOOLS_ENABLED").map(String::as_str), Some("false"));
    assert!(!child.contains_key("AUGMENT_SESSION_AUTH"));
}

#[test]
fn profile_ci_value_survives_when_caller_has_none() {
    let profile = pairs(&[("CI", "1")]);
    let parent = pairs(&[("HOME", "/h")]);
    let ops = plan_env(&profile, &parent, true);
    let child = apply(&parent, &ops);
    assert_eq!(child.get("CI").map(String::as_str), Some("1"));
    assert!(!child.contains_key("GESTURA_TOOLS_ENABLED"));
}

#[test]
fn command_has_prefix_then_prompt() {
    let cfg = EvalConfig {
        agent: AgentInfo { id: "codex-full".into(), name: "Codex".into(), mode: AgentMode::Autonomous },
        model: ModelInfo { provider: "openai".into(), name: "o4".into() },
        subprocess: SubprocessConfig {
            bin: Some("codex".into()),
            args_prefix: vec!["exec".into(), "--full-auto".into()],
            env: vec![],
            response_strip_prefix: None,
        },
        execution: ExecutionConfig {
            trials: 1,
            retries: 0,
            timeout_secs: 10,
            delay_between_variations_ms: 0,
            rate_limit_backoff_secs: 1,
        },
        variation_overrides: vec![],
    };
    let runner = CliEvalRunner::new(CliRunnerOptions::new(cfg));
    let scenario = EvalScenario {
        id: "s1".into(),
        name: "S".into(),
        category: "c".into(),
        rubric: ScenarioRubric { tools_enabled: true },
        variations: vec![],
    };
    let variation = EvalVariation {
        id: "v1".into(),
        prompt: "Now?".into(),
        history: vec![ChatMessage { role: "user".into(), content: "Hi".into() }],
        rubric: VariationRubric { expected_keywords: vec![], min_words: None, max_words: None, checks: vec![] },
    };
    let plan = runner.command_for(&scenario, &variation, &Vec::new());
    assert_eq!(plan.program.as_deref(), Some("codex"));
    assert_eq!(
        plan.args,
        vec![
            "exec".to_string(),
            "--full-auto".to_string(),
            "Continue this conversation and respond to the final user message.\n\nUser: Hi\n\nUser: Now?"
                .to_string()
        ]
    );
    assert!(plan.env.is_empty());
}

#[test]
fn workdir_names() {
    assert_eq!(workdir_name("abc"), "agent-eval-abc");
    let a = fresh_workdir_name();
    let b = fresh_workdir_name();
    assert_ne!(a, b);
    let id = a.strip_prefix("agent-eval-").unwrap();
    assert_eq!(id.len(), 36);
    let c: Vec<char> = id.chars().collect();
    for (i, ch) in c.iter().enumerate() {
        if [8, 13, 18, 23].contains(&i) {
            assert_eq!(*ch, '-');
        } else {
            assert!(ch.is_ascii_hexdigit() && !ch.is_ascii_uppercase());
        }
    }
    assert_eq!(c[14], '4');
    assert!("89ab".contains(c[19]));
}

#[test]
fn outcome_success_trims_output() {
    let (text, err) = read_outcome(
        RunOutcome::Exited {
            success: true,
            status: "exit status: 0".into(),
            stdout: b"  The answer is 4.\n".to_vec(),
            stderr: b"warning: noise".to_vec(),
        },
        None,
    );
    assert_eq!(text, "The answer is 4.");
    assert_eq!(err, None);
}

#[test]
fn outcome_strips_configured_prefix() {
    let (text, _) = read_outcome(
        RunOutcome::Exited {
            success: true,
            status: "exit status: 0".into(),
            stdout: b"\nAssistant:   hello\n".to_vec(),
            stderr: vec![],
        },
        Some("Assistant:"),
    );
    assert_eq!(text, "hello");
    let (text, _) = read_outcome(
        RunOutcome::Exited {
            success: true,
            status: "exit status: 0".into(),
            stdout: b"User: hello".to_vec(),
            stderr: vec![],
        },
        Some("Assistant:"),
    );
    assert_eq!(text, "User: hello");
}

#[test]
fn outcome_failure_prefers_stderr() {
    let (text, err) = read_outcome(
        RunOutcome::Exited {
            success: false,
            status: "exit status: 2".into(),
            stdout: b"partial".to_vec(),
            stderr: b"  boom\n".to_vec(),
        },
        None,
    );
    assert_eq!(text, "partial");
    assert_eq!(err, Some(PipelineError::Stderr { text: "boom".into() }));
    assert_eq!(err.unwrap().text(), "boom");
}

#[test]
fn outcome_silent_failure_reports_exit_status() {
    let (text, err) = read_outcome(
        RunOutcome::Exited {
            success: false,
            status: "exit status: 137".into(),
            stdout: vec![],
            stderr: b" \n".to_vec(),
        },
        None,
    );
    assert_eq!(text, "");
    assert_eq!(err, Some(PipelineError::SilentExit { status: "exit status: 137".into() }));
    assert_eq!(err.as_ref().unwrap().text(), "exit exit status: 137");
    assert!(is_silent_transient_failure(err.as_ref(), &text));
}

#[test]
fn outcome_failure_with_output_but_no_stderr_is_not_silent() {
    let (text, err) = read_outcome(
        RunOutcome::Exited {
            success: false,
            status: "exit status: 1".into(),
            stdout: b"half an answer".to_vec(),
            stderr: vec![],
        },
        None,
    );
    assert_eq!(text, "half an answer");
    assert_eq!(err, Some(PipelineError::ExitStatus { status: "exit status: 1".into() }));
    assert_eq!(err.as_ref().unwrap().text(), "exit exit status: 1");
    assert!(!is_silent_transient_failure(err.as_ref(), &text));
}

#[test]
fn outcome_stderr_that_reads_like_a_status_is_not_silent() {
    let (text, err) = read_outcome(
        RunOutcome::Exited {
            success: false,
            status: "exit status: 1".into(),
            stdout: vec![],
            stderr: b"exit handler crashed".to_vec(),
        },
        None,
    );
    assert_eq!(text, "");
    assert_eq!(err, Some(PipelineError::Stderr { text: "exit handler crashed".into() }));
    assert!(!is_silent_transient_failure(err.as_ref(), &text));
}

#[test]
fn outcome_empty_streams_decode_to_empty_text() {
    let (text, err) = read_outcome(
        RunOutcome::Exited { success: true, status: "exit status: 0".into(), stdout: vec![], stderr: vec![] },
        Some("Assistant:"),
    );
    assert_eq!(text, "");
    assert_eq!(err, None);
}

#[test]
fn interpret_exit_classifies_failures() {
    let (text, err) = interpret_exit(false, "exit status: 3", "  ", "\n", None);
    assert_eq!(text, "");
    assert_eq!(err, Some(PipelineError::SilentExit { status: "exit status: 3".into() }));
    let (text, err) = interpret_exit(false, "exit status: 3", "Assistant: hi", "", Some("Assistant:"));
    assert_eq!(text, "hi");
    assert_eq!(err, Some(PipelineError::ExitStatus { status: "exit status: 3".into() }));
    let (text, err) = interpret_exit(true, "exit status: 0", " fine ", "warn", None);
    assert_eq!(text, "fine");
    assert_eq!(err, None);
}

#[test]
fn silent_failure_needs_silent_exit_and_blank_output() {
    let silent = PipelineError::SilentExit { status: "exit status: 1".into() };
    assert!(is_silent_transient_failure(Some(&silent), ""));
    assert!(is_silent_transient_failure(Some(&silent), "  \n\t"));
    assert!(!is_silent_transient_failure(Some(&silent), "partial answer"));
    let stderr = PipelineError::Stderr { text: "exit handler crashed".into() };
    assert!(!is_silent_transient_failure(Some(&stderr), ""));
    let timeout = PipelineError::Failure { message: "timeout after 5s".into() };
    assert!(!is_silent_transient_failure(Some(&timeout), ""));
    assert!(!is_silent_transient_failure(None, ""));
}

#[test]
fn outcome_invalid_utf8_is_replaced() {
    let (text, _) = read_outcome(
        RunOutcome::Exited {
            success: true,
            status: "exit status: 0".into(),
            stdout: vec![b'o', b'k', 0xff, b'!'],
            stderr: vec![],
        },
        None,
    );
    assert_eq!(text, "ok\u{FFFD}!");
}

#[test]
fn outcome_timeout_spawn_and_wait_failures() {
    let (text, err) = read_outcome(RunOutcome::TimedOut { timeout_secs: 300 }, None);
    assert_eq!(text, "");
    assert_eq!(err.unwrap().text(), "timeout after 300s");
    let (text, err) = read_outcome(RunOutcome::SpawnFailed { message: "No such file or directory (os error 2)".into() }, None);
    assert_eq!(text, "");
    assert_eq!(err, Some(PipelineError::Failure { message: "No such file or directory (os error 2)".into() }));
    let (text, err) = read_outcome(RunOutcome::WaitFailed { message: "interrupted".into() }, None);
    assert_eq!(text, "");
    assert_eq!(err.unwrap().text(), "interrupted");
}
