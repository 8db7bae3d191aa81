//! Properties of the library that span its functions: the run state machine,
//! the reading of an invocation outcome, the prompt, and rate-limit detection.

use vstd::prelude::*;
use crate::command::{
    PipelineErrorView,
    RunOutcome,
    exit_result,
    invocation_result,
    is_silent_failure_spec,
    response_of,
    timeout_message,
};
use crate::config::{OverrideView, last_additional_checks, last_max_words, last_min_words};
use crate::command::{env_map, error_text};
use crate::prompt::{continuation_header, prompt_text};
use crate::scenario::{EvalScenario, selected_positions};
use crate::text::{
    ascii_lower,
    ascii_lowercase,
    ascii_upper,
    ascii_uppercase,
    has_infix,
    has_prefix,
    is_ascii_text,
    is_blank,
    lowercase_of,
    mentions_rate_limit_spec,
    trim_end,
    trim_start,
    trimmed,
    truncated,
};
use crate::suite_run::{
    ActionView,
    EventView,
    Phase,
    RunState,
    accepts,
    backoff_wait,
    is_retryable,
    lemma_next_preserves_wf,
    count_passed,
    next,
    suite_position,
    variation_count,
    wf,
};

verus! {

/// Each trial works on its own variation. A trial's announcement names the
/// variation the run then stands on; in a real run the announced trial launches
/// the agent on exactly that variation; and every launch, retry, score request
/// and variation report names the scenario and variation the run stands on,
/// which none of them moves.
pub proof fn law_actions_name_current_variation(s: RunState, e: EventView)
    requires
        wf(s),
        accepts(s, e),
    ensures
        ({
            let (t, a) = next(s, e);
            &&& (a matches ActionView::TrialStarted { scenario, variation, .. } ==> scenario
                == suite_position(t, t.scenario) && variation == t.variation)
            &&& (a matches ActionView::Invoke { scenario, variation } ==> scenario == suite_position(
                s,
                s.scenario,
            ) && variation == s.variation && t.scenario == s.scenario && t.variation
                == s.variation)
            &&& (a matches ActionView::RateLimitRetry { scenario, variation, .. } ==> scenario
                == suite_position(s, s.scenario) && variation == s.variation && t.scenario
                == s.scenario && t.variation == s.variation)
            &&& (a matches ActionView::Evaluate { scenario, variation, .. } ==> scenario
                == suite_position(s, s.scenario) && variation == s.variation && t.scenario
                == s.scenario && t.variation == s.variation)
            &&& (a matches ActionView::VariationDone { scenario, variation, .. } ==> scenario
                == suite_position(s, s.scenario) && variation == s.variation)
        }),
        s.phase == Phase::TrialAnnounced && !s.dry_run ==> next(s, e).1 == (ActionView::Invoke {
            scenario: suite_position(s, s.scenario),
            variation: s.variation,
        }),
{
}

/// A rate-limit marker anywhere calls for a retry: in the response, whatever
/// error came with it; in the error's text, whatever the response; and a run
/// that exited with a failure status after printing nothing is retried too.
/// Nothing else calls for one.
pub proof fn law_retry_triggers(response: Seq<char>, e: Option<PipelineErrorView>)
    ensures
        mentions_rate_limit_spec(lowercase_of(response)) ==> is_retryable(response, e),
        (e matches Some(x) && mentions_rate_limit_spec(lowercase_of(error_text(x))))
            ==> is_retryable(response, e),
        (e matches Some(PipelineErrorView::SilentExit { .. }) && is_blank(response))
            ==> is_retryable(response, e),
        is_retryable(response, e) ==> mentions_rate_limit_spec(lowercase_of(response)) || (e matches Some(
            x,
        ) && mentions_rate_limit_spec(lowercase_of(error_text(x)))) || (e matches Some(
            PipelineErrorView::SilentExit { .. },
        ) && is_blank(response)),
{
}

/// Every trial makes at most `1 + retries` attempts: while the run waits for the
/// agent, the attempt number is between 1 and the allowed number of attempts.
pub proof fn law_attempts_bounded(s: RunState)
    requires
        wf(s),
        s.phase == Phase::AwaitingAgent,
    ensures
        1 <= s.attempt <= s.max_attempts,
{
}

/// A retry is asked for only after an attempt whose outcome reports a rate
/// limit (or a silent failure), only while attempts remain, and with the
/// backoff wait for that attempt; any other outcome is scored as it came.
pub proof fn law_retry_only_when_rate_limited(s: RunState, e: EventView)
    requires
        wf(s),
        accepts(s, e),
        s.phase == Phase::AwaitingAgent,
    ensures
        e matches EventView::AgentReturned { response, pipeline_error } && ({
            let a = next(s, e).1;
            if is_retryable(response, pipeline_error) && s.attempt < s.max_attempts {
                a == ActionView::RateLimitRetry {
                    scenario: suite_position(s, s.scenario),
                    variation: s.variation,
                    attempt: s.attempt,
                    max_attempts: s.max_attempts,
                    wait_secs: backoff_wait(s.backoff_secs, s.attempt),
                }
            } else {
                a == ActionView::Evaluate {
                    scenario: suite_position(s, s.scenario),
                    variation: s.variation,
                    response,
                    pipeline_error,
                }
            }
        }),
{
}

/// After a retry is announced, the next action launches the agent again, with
/// the attempt number one higher.
pub proof fn law_retry_relaunches(s: RunState)
    requires
        wf(s),
        s.phase == Phase::BackingOff,
    ensures
        next(s, EventView::Continue).1 == (ActionView::Invoke {
            scenario: suite_position(s, s.scenario),
            variation: s.variation,
        }),
        next(s, EventView::Continue).0.attempt == s.attempt + 1,
        next(s, EventView::Continue).0.phase == Phase::AwaitingAgent,
{
}

/// The backoff never shrinks from one retry to the next, and never exceeds
/// eight times the base backoff.
pub proof fn law_backoff_monotone(backoff_secs: nat, attempt: nat)
    ensures
        backoff_wait(backoff_secs, attempt) <= backoff_wait(backoff_secs, attempt + 1),
        backoff_wait(backoff_secs, attempt) <= 8 * backoff_secs,
        backoff_secs <= u64::MAX ==> backoff_secs <= backoff_wait(backoff_secs, attempt),
{
    assert(backoff_secs * 1 <= backoff_secs * 2) by (nonlinear_arith);
    assert(backoff_secs * 2 <= backoff_secs * 4) by (nonlinear_arith);
    assert(backoff_secs * 4 <= backoff_secs * 8) by (nonlinear_arith);
}

/// A variation passes exactly when more than half of its trials passed: each
/// scored trial's verdict is recorded, and the variation is reported once it
/// has exactly its number of trials, with the count of passing ones.
pub proof fn law_majority_vote(s: RunState, e: EventView)
    requires
        wf(s),
        accepts(s, e),
        e matches EventView::Evaluated { duration_ms, .. } ==> s.duration_ms + duration_ms
            <= u64::MAX,
    ensures
        e matches EventView::Evaluated { passed, .. } ==> next(s, e).0.trial_verdicts
            == s.trial_verdicts.push(passed),
        next(s, e).1 matches ActionView::VariationDone { passed, passed_trials, total_trials, .. }
            ==> {
            let v = next(s, e).0.trial_verdicts;
            &&& total_trials == s.trials
            &&& v.len() == total_trials
            &&& passed_trials == count_passed(v)
            &&& passed == (count_passed(v) * 2 > total_trials)
        },
        (s.phase == Phase::Announced || s.phase == Phase::ScenarioReported || s.phase
            == Phase::VariationReported || s.phase == Phase::VariationPause) && next(s, e).1 is TrialStarted
            ==> next(s, e).0.trial_verdicts.len() == 0,
{
    lemma_next_preserves_wf(s, e);
}

/// A scenario's report counts its passing variations out of all of them: each
/// variation's verdict is recorded as it is reported, a scenario starts with no
/// verdicts, and the scenario's report comes once all of its variations have a
/// verdict, with the number of passes among them and their number.
pub proof fn law_scenario_report_counts_passing_variations(s: RunState, e: EventView)
    requires
        wf(s),
        accepts(s, e),
        e matches EventView::Evaluated { duration_ms, .. } ==> s.duration_ms + duration_ms
            <= u64::MAX,
    ensures
        next(s, e).1 matches ActionView::VariationDone { passed, .. } ==> next(s, e).0.verdicts
            == s.verdicts.push(passed),
        next(s, e).1 matches ActionView::ScenarioDone { passed_variations, total_variations, .. } ==> {
            let t = next(s, e).0;
            &&& t.verdicts.len() == variation_count(t, t.scenario)
            &&& total_variations == t.verdicts.len()
            &&& passed_variations == count_passed(t.verdicts)
        },
        (s.phase == Phase::Announced || s.phase == Phase::ScenarioReported) && next(s, e).1 is TrialStarted
            ==> next(s, e).0.verdicts.len() == 0,
{
    lemma_next_preserves_wf(s, e);
}

/// A dry run never launches the agent: every response it scores is the stub,
/// with no error.
pub proof fn law_dry_run_never_invokes(s: RunState, e: EventView)
    requires
        wf(s),
        accepts(s, e),
        s.dry_run,
        s.phase != Phase::AwaitingAgent && s.phase != Phase::BackingOff,
    ensures
        !(next(s, e).1 is Invoke),
        !(next(s, e).1 is RateLimitRetry),
        next(s, e).0.phase != Phase::AwaitingAgent && next(s, e).0.phase != Phase::BackingOff,
        next(s, e).1 matches ActionView::Evaluate { pipeline_error, .. } ==> pipeline_error is None,
{
}

/// A pause is asked for only when the profile sets a delay, and it is exactly
/// that delay; after a scored trial the pause comes only when another trial of
/// the variation follows (the variation's own pause comes after its report).
pub proof fn law_pause_only_with_delay(s: RunState, e: EventView)
    requires
        wf(s),
        accepts(s, e),
    ensures
        next(s, e).1 matches ActionView::Sleep { ms } ==> ms == s.delay_ms && ms > 0,
        s.phase == Phase::Evaluating && next(s, e).1 is Sleep ==> next(s, e).0.trial < s.trials,
        s.phase == Phase::Evaluating && next(s, e).0.trial == s.trials ==> next(s, e).1 is VariationDone,
{
}

/// The run opens by announcing the number of variations in its plan.
pub proof fn law_profile_started_counts_variations(s: RunState)
    requires
        wf(s),
        s.phase == Phase::Idle,
    ensures
        next(s, EventView::Start).1 == (ActionView::ProfileStarted {
            total_variations: crate::suite_run::variations_in(s.plan, s.plan.len()),
        }),
{
}


// ───────────────────────────── termination ─────────────────────────────

/// Most steps one trial takes: announce, every attempt with its backoff, score,
/// pause.
pub open spec fn trial_cost(s: RunState) -> int {
    2 * (s.max_attempts as int) + 2
}

/// Most steps one variation takes: its trials, its report and its pause.
pub open spec fn variation_cost(s: RunState) -> int {
    (s.trials as int) * trial_cost(s) + 2
}

/// Most steps the planned scenarios from position `p` on take.
pub open spec fn scenarios_cost(s: RunState, p: nat) -> int
    decreases s.plan.len() - p,
{
    if p >= s.plan.len() {
        0
    } else {
        (variation_count(s, p) as int) * variation_cost(s) + 1 + scenarios_cost(s, p + 1)
    }
}

/// Most steps left in the current variation.
pub open spec fn variation_steps_left(s: RunState) -> int {
    let later = (s.trials - s.trial - 1) * trial_cost(s);
    match s.phase {
        Phase::TrialAnnounced => later + trial_cost(s) + 2,
        Phase::AwaitingAgent => later + 2 * (s.max_attempts - s.attempt) + 5,
        Phase::BackingOff => later + 2 * (s.max_attempts - s.attempt) + 4,
        Phase::Evaluating => later + 4,
        Phase::TrialPause => (s.trials - s.trial) * trial_cost(s) + 3,
        Phase::VariationReported => 2,
        _ => 1,
    }
}

/// An upper bound on the number of steps left before the run is over.
pub open spec fn steps_left(s: RunState) -> int {
    match s.phase {
        Phase::Idle => scenarios_cost(s, 0) + 2,
        Phase::Announced => scenarios_cost(s, 0) + 1,
        Phase::ScenarioReported => scenarios_cost(s, s.scenario + 1) + 1,
        Phase::Finished => 0,
        _ => (variation_count(s, s.scenario) - s.variation - 1) * variation_cost(s)
            + variation_steps_left(s) + 1 + scenarios_cost(s, s.scenario + 1),
    }
}

proof fn lemma_mul_nonneg(x: int, y: int)
    requires
        0 <= x,
        0 <= y,
    ensures
        0 <= x * y,
{
    assert(0 <= x * y) by (nonlinear_arith)
        requires
            0 <= x,
            0 <= y,
    ;
}

proof fn lemma_mul_succ(x: int, y: int)
    ensures
        (x + 1) * y == x * y + y,
{
    assert((x + 1) * y == x * y + y) by (nonlinear_arith);
}

proof fn lemma_cost_same(s1: RunState, s2: RunState, p: nat)
    requires
        s1.plan == s2.plan,
        s1.trials == s2.trials,
        s1.max_attempts == s2.max_attempts,
    ensures
        scenarios_cost(s1, p) == scenarios_cost(s2, p),
    decreases s1.plan.len() - p,
{
    if p < s1.plan.len() {
        lemma_cost_same(s1, s2, p + 1);
    }
}

proof fn lemma_scenarios_cost_nonneg(s: RunState, p: nat)
    requires
        wf(s),
    ensures
        scenarios_cost(s, p) >= 0,
    decreases s.plan.len() - p,
{
    if p < s.plan.len() {
        lemma_scenarios_cost_nonneg(s, p + 1);
        lemma_mul_nonneg(s.trials as int, trial_cost(s));
        lemma_mul_nonneg(variation_count(s, p) as int, variation_cost(s));
    }
}

proof fn lemma_steps_left_nonneg(s: RunState)
    requires
        wf(s),
    ensures
        steps_left(s) >= 0,
{
    lemma_scenarios_cost_nonneg(s, 0);
    lemma_scenarios_cost_nonneg(s, s.scenario + 1);
    lemma_mul_nonneg(s.trials as int, trial_cost(s));
    if s.scenario < s.plan.len() && s.variation < variation_count(s, s.scenario) {
        lemma_mul_nonneg(variation_count(s, s.scenario) - s.variation - 1, variation_cost(s));
    }
    if s.trial < s.trials {
        lemma_mul_nonneg(s.trials - s.trial - 1, trial_cost(s));
    }
    if s.trial <= s.trials {
        lemma_mul_nonneg(s.trials - s.trial, trial_cost(s));
    }
}

/// Entering scenario `p` leaves at most the cost of the scenarios from `p` on.
proof fn lemma_enter_scenario_cost(s: RunState, p: nat)
    requires
        wf(s),
    ensures
        steps_left(crate::suite_run::enter_scenario(s, p).0) <= scenarios_cost(s, p),
        wf(s) && p < s.plan.len() && variation_count(s, p) > 0 ==> {
            let t = crate::suite_run::enter_scenario(s, p).0;
            t.scenario == p && t.variation == 0 && t.trial == 0
        },
{
    let t = crate::suite_run::enter_scenario(s, p).0;
    lemma_cost_same(s, t, p + 1);
    lemma_cost_same(s, t, p);
    if p < s.plan.len() && variation_count(s, p) > 0 {
        let n = variation_count(s, p) as int;
        lemma_mul_succ(n - 1, variation_cost(s));
        lemma_mul_succ(s.trials - 1, trial_cost(s));
    }
}

/// The run always ends: every step strictly lowers a bound on the steps left,
/// and that bound is never negative. A fresh run therefore reaches `Finished`
/// within `steps_left` of its first state.
pub proof fn law_run_terminates(s: RunState, e: EventView)
    requires
        wf(s),
        accepts(s, e),
        e matches EventView::Evaluated { duration_ms, .. } ==> s.duration_ms + duration_ms
            <= u64::MAX,
    ensures
        0 <= steps_left(next(s, e).0) < steps_left(s),
{
    lemma_next_preserves_wf(s, e);
    lemma_steps_left_nonneg(next(s, e).0);
    lemma_cost_same(s, next(s, e).0, 0);
    lemma_cost_same(s, next(s, e).0, s.scenario + 1);
    let t = s.trials as int;
    let c = trial_cost(s);
    let v = variation_cost(s);
    match s.phase {
        Phase::Idle => {},
        Phase::Announced => {
            lemma_enter_scenario_cost(s, 0);
        },
        Phase::ScenarioReported => {
            lemma_enter_scenario_cost(s, s.scenario + 1);
        },
        Phase::TrialAnnounced | Phase::AwaitingAgent | Phase::BackingOff | Phase::Evaluating
        | Phase::TrialPause => {
            lemma_mul_succ(t - s.trial - 1, c);
            lemma_mul_succ(t - s.trial - 2, c);
        },
        Phase::VariationReported | Phase::VariationPause => {
            let n = variation_count(s, s.scenario) as int;
            lemma_mul_succ(n - s.variation - 2, v);
            lemma_mul_succ(t - 1, c);
        },
        Phase::Finished => {},
    }
}


// ───────────────────────────── invocation outcome ─────────────────────────────

/// A run counts as a silent crash exactly when the agent exited with a failure
/// status after printing nothing (beyond white space) on either stream; such a
/// run calls for a retry.
pub proof fn law_silent_crash_is_retried(
    success: bool,
    status: Seq<char>,
    stdout: Seq<char>,
    stderr: Seq<char>,
    strip_prefix: Option<Seq<char>>,
)
    ensures
        ({
            let (text, err) = exit_result(success, status, stdout, stderr, strip_prefix);
            &&& is_silent_failure_spec(err, text) <==> (!success && trimmed(stdout).len() == 0
                && trimmed(stderr).len() == 0)
            &&& is_silent_failure_spec(err, text) ==> is_retryable(text, err)
        }),
{
    let raw = trimmed(stdout);
    let text = response_of(raw, strip_prefix);
    if raw.len() == 0 {
        let e: Seq<char> = Seq::empty();
        assert(trim_start(e) == e);
        assert(trim_end(e) == e);
        assert(raw == e);
        assert(text.len() == 0);
    }
}

/// An invocation that did not run to an exit (launch failure, timeout, failed
/// wait) answers nothing and is never taken for a silent crash; a timeout says
/// `timeout after <n>s`.
pub proof fn law_failures_are_not_silent_crashes(o: RunOutcome, strip_prefix: Option<Seq<char>>)
    requires
        !(o is Exited),
    ensures
        ({
            let (text, err) = invocation_result(o, strip_prefix);
            &&& text.len() == 0
            &&& err matches Some(PipelineErrorView::Failure { .. })
            &&& !is_silent_failure_spec(err, text)
            &&& (o matches RunOutcome::TimedOut { timeout_secs } ==> err == Some(
                PipelineErrorView::Failure { message: timeout_message(timeout_secs as nat) },
            ))
        }),
{
}

/// A successful exit never carries a pipeline error.
pub proof fn law_success_has_no_error(
    status: String,
    stdout: Vec<u8>,
    stderr: Vec<u8>,
    strip_prefix: Option<Seq<char>>,
)
    ensures
        invocation_result(
            RunOutcome::Exited { success: true, status, stdout, stderr },
            strip_prefix,
        ).1 is None,
{
}

// ───────────────────────────── prompt and preview ─────────────────────────────

/// Without history the prompt is sent as it is; with history the text opens
/// with the continuation header and ends with the prompt as the final user turn.
pub proof fn law_prompt_shape(history: Seq<crate::scenario::ChatMessage>, prompt: Seq<char>)
    ensures
        history.len() == 0 ==> prompt_text(history, prompt) == prompt,
        history.len() > 0 ==> has_prefix(prompt_text(history, prompt), continuation_header()),
        history.len() > 0 ==> prompt_text(history, prompt).subrange(
            prompt_text(history, prompt).len() - prompt.len() - 6,
            prompt_text(history, prompt).len() as int,
        ) == "User: "@ + prompt,
{
    if history.len() > 0 {
        reveal_strlit("User: ");
        let t = prompt_text(history, prompt);
        let h = continuation_header();
        let rest = crate::prompt::transcript(history);
        assert(t == h + rest + "User: "@ + prompt);
        assert(t.subrange(0, h.len() as int) =~= h);
        assert(t.subrange(t.len() - prompt.len() - 6, t.len() as int) =~= "User: "@ + prompt);
    }
}

/// One turn of a conversation as the prompt shows it: `Label: content` and a
/// blank line.
pub open spec fn turn_text(m: crate::scenario::ChatMessage) -> Seq<char> {
    crate::prompt::role_label(m.role@) + ": "@ + m.content@ + "\n\n"@
}

/// The summed length of the first `n` turns as the prompt shows them.
pub open spec fn turns_len(h: Seq<crate::scenario::ChatMessage>, n: nat) -> nat
    decreases n,
{
    if n == 0 {
        0
    } else {
        turns_len(h, (n - 1) as nat) + turn_text(h[n - 1]).len()
    }
}

proof fn lemma_turns_len_monotone(h: Seq<crate::scenario::ChatMessage>, i: nat, n: nat)
    requires
        i <= n,
    ensures
        turns_len(h, i) <= turns_len(h, n),
    decreases n,
{
    if i < n {
        lemma_turns_len_monotone(h, i, (n - 1) as nat);
    }
}

#[verifier::spinoff_prover]
#[verifier::rlimit(40)]
proof fn lemma_transcript_turns(h: Seq<crate::scenario::ChatMessage>, n: nat)
    requires
        n <= h.len(),
    ensures
        crate::prompt::transcript(h.take(n as int)).len() == turns_len(h, n),
        forall|i: int|
            0 <= i < n ==> crate::prompt::transcript(h.take(n as int)).subrange(
                turns_len(h, i as nat) as int,
                turns_len(h, (i + 1) as nat) as int,
            ) == turn_text(#[trigger] h[i]),
    decreases n,
{
    if n > 0 {
        lemma_transcript_turns(h, (n - 1) as nat);
        let prev = crate::prompt::transcript(h.take(n - 1));
        let t = crate::prompt::transcript(h.take(n as int));
        assert(h.take(n as int).drop_last() =~= h.take(n - 1));
        assert(h.take(n as int).last() == h[n - 1]);
        assert(t =~= prev + turn_text(h[n - 1]));
        assert forall|i: int| 0 <= i < n implies t.subrange(
            turns_len(h, i as nat) as int,
            turns_len(h, (i + 1) as nat) as int,
        ) == turn_text(#[trigger] h[i]) by {
            if i < n - 1 {
                lemma_turns_len_monotone(h, (i + 1) as nat, (n - 1) as nat);
                assert(t.subrange(turns_len(h, i as nat) as int, turns_len(h, (i + 1) as nat) as int)
                    =~= prev.subrange(
                    turns_len(h, i as nat) as int,
                    turns_len(h, (i + 1) as nat) as int,
                ));
            } else {
                assert(t.subrange(turns_len(h, i as nat) as int, turns_len(h, (i + 1) as nat) as int)
                    =~= turn_text(h[n - 1]));
            }
        }
    }
}

/// With history, the prompt holds every turn of it, in order and whole: after
/// the header, turn `i` stands as `Label: content` and a blank line right after
/// the turns before it, and the text then ends with `User: ` and the prompt; its
/// length is the header's, the turns' and the final turn's together.
#[verifier::spinoff_prover]
#[verifier::rlimit(40)]
pub proof fn law_prompt_holds_every_turn(history: Seq<crate::scenario::ChatMessage>, prompt: Seq<char>)
    requires
        history.len() > 0,
    ensures
        ({
            let t = prompt_text(history, prompt);
            let h = continuation_header().len();
            &&& t.len() == h + turns_len(history, history.len()) + 6 + prompt.len()
            &&& t.subrange(0, h as int) == continuation_header()
            &&& forall|i: int|
                0 <= i < history.len() ==> t.subrange(
                    (h + turns_len(history, i as nat)) as int,
                    (h + turns_len(history, (i + 1) as nat)) as int,
                ) == turn_text(#[trigger] history[i])
            &&& t.subrange(t.len() - prompt.len() - 6, t.len() as int) == "User: "@ + prompt
        }),
{
    reveal_strlit("User: ");
    lemma_transcript_turns(history, history.len());
    assert(history.take(history.len() as int) =~= history);
    let t = prompt_text(history, prompt);
    let hd = continuation_header();
    let tr = crate::prompt::transcript(history);
    assert(t =~= hd + tr + ("User: "@ + prompt));
    assert(t.subrange(0, hd.len() as int) =~= hd);
    assert forall|i: int| 0 <= i < history.len() implies t.subrange(
        (hd.len() + turns_len(history, i as nat)) as int,
        (hd.len() + turns_len(history, (i + 1) as nat)) as int,
    ) == turn_text(#[trigger] history[i]) by {
        lemma_turns_len_monotone(history, (i + 1) as nat, history.len());
        assert(t.subrange(
            (hd.len() + turns_len(history, i as nat)) as int,
            (hd.len() + turns_len(history, (i + 1) as nat)) as int,
        ) =~= tr.subrange(turns_len(history, i as nat) as int, turns_len(history, (i + 1) as nat) as int));
    }
    assert(t.subrange(t.len() - prompt.len() - 6, t.len() as int) =~= "User: "@ + prompt);
}

/// A preview never holds more than `max_chars` characters nor a line feed, and
/// a text that fits is kept whole (line feeds turned into spaces).
pub proof fn law_preview_bounded(s: Seq<char>, max_chars: nat)
    requires
        max_chars >= 1,
    ensures
        truncated(s, max_chars).len() <= max_chars,
        forall|i: int| 0 <= i < truncated(s, max_chars).len() ==> truncated(s, max_chars)[i] != '\n',
        s.len() <= max_chars ==> truncated(s, max_chars) == crate::text::newlines_to_spaces(s),
{
    let r = crate::text::newlines_to_spaces(s);
    let t = truncated(s, max_chars);
    assert forall|i: int| 0 <= i < t.len() implies t[i] != '\n' by {
        if r.len() > max_chars && i < max_chars - 1 {
            assert(t[i] == r[i]);
        }
    }
}

// ───────────────────────────── scenario selection ─────────────────────────────

/// An empty filter selects every scenario, in suite order.
pub proof fn law_empty_filter_selects_all(scenarios: Seq<EvalScenario>, ids: Seq<String>, n: nat)
    requires
        ids.len() == 0,
        n <= usize::MAX,
    ensures
        selected_positions(scenarios, ids, n).len() == n,
        forall|i: int| 0 <= i < n ==> selected_positions(scenarios, ids, n)[i] == i,
    decreases n,
{
    if n > 0 {
        law_empty_filter_selects_all(scenarios, ids, (n - 1) as nat);
        let e = selected_positions(scenarios, ids, (n - 1) as nat);
        assert forall|i: int| 0 <= i < n implies selected_positions(scenarios, ids, n)[i] == i by {
            if i < n - 1 {
                assert(selected_positions(scenarios, ids, n)[i] == e[i]);
            }
        }
    }
}

// ───────────────────────────── rate-limit detection ─────────────────────────────

/// A text that holds `needle` still holds it with anything written around it.
proof fn lemma_infix_in_context(hay: Seq<char>, needle: Seq<char>, a: Seq<char>, b: Seq<char>)
    requires
        has_infix(hay, needle),
    ensures
        has_infix(a + hay + b, needle),
{
    let i = choose|i: int|
        0 <= i && i + needle.len() <= hay.len() && #[trigger] hay.subrange(i, i + needle.len())
            == needle;
    let whole = a + hay + b;
    let j = a.len() + i;
    assert(whole.subrange(j, j + needle.len()) =~= hay.subrange(i, i + needle.len()));
}

/// Text written around a lower-cased report never hides its rate-limit marker.
pub proof fn law_rate_limit_marker_survives_context(a: Seq<char>, x: Seq<char>, b: Seq<char>)
    requires
        mentions_rate_limit_spec(x),
    ensures
        mentions_rate_limit_spec(a + x + b),
{
    reveal_strlit("429");
    if has_infix(x, "429"@) {
        lemma_infix_in_context(x, "429"@, a, b);
    } else if has_infix(x, "rate limit"@) {
        lemma_infix_in_context(x, "rate limit"@, a, b);
    } else if has_infix(x, "rate_limit"@) {
        lemma_infix_in_context(x, "rate_limit"@, a, b);
    } else if has_infix(x, "too many requests"@) {
        lemma_infix_in_context(x, "too many requests"@, a, b);
    } else if has_infix(x, "tokens per minute"@) {
        lemma_infix_in_context(x, "tokens per minute"@, a, b);
    } else if has_infix(x, "requests per minute"@) {
        lemma_infix_in_context(x, "requests per minute"@, a, b);
    } else if has_infix(x, "request rejected"@) {
        lemma_infix_in_context(x, "request rejected"@, a, b);
    } else {
        lemma_infix_in_context(x, "overloaded"@, a, b);
    }
}

/// On ASCII text the rate-limit check ignores letter case (a report reads the
/// same after `to_ascii_uppercase`), and text written around a report never
/// hides its marker.
pub proof fn law_rate_limit_check_on_ascii(a: Seq<char>, t: Seq<char>, b: Seq<char>)
    ensures
        is_ascii_text(t) ==> is_ascii_text(ascii_uppercase(t)),
        is_ascii_text(a) && is_ascii_text(t) && is_ascii_text(b) ==> is_ascii_text(a + t + b),
        mentions_rate_limit_spec(ascii_lowercase(ascii_uppercase(t))) == mentions_rate_limit_spec(
            ascii_lowercase(t),
        ),
        mentions_rate_limit_spec(ascii_lowercase(t)) ==> mentions_rate_limit_spec(
            ascii_lowercase(a + t + b),
        ),
{
    assert forall|i: int| 0 <= i < t.len() implies ascii_lower(ascii_upper(t[i])) == ascii_lower(
        t[i],
    ) by {
        let c = t[i];
        if 97 <= (c as u32) <= 122 {
            let u = ((c as u32) - 32) as char;
            assert((u as u32) == (c as u32) - 32);
        }
    }
    assert(ascii_lowercase(ascii_uppercase(t)) =~= ascii_lowercase(t));
    if is_ascii_text(t) {
        assert forall|i: int| 0 <= i < t.len() implies (#[trigger] ascii_uppercase(t)[i] as u32)
            < 128 by {
            let c = t[i];
            if 97 <= (c as u32) <= 122 {
                let u = ((c as u32) - 32) as char;
                assert((u as u32) == (c as u32) - 32);
            }
        }
    }
    if is_ascii_text(a) && is_ascii_text(t) && is_ascii_text(b) {
        let w = a + t + b;
        assert forall|i: int| 0 <= i < w.len() implies (#[trigger] w[i] as u32) < 128 by {
            if i < a.len() {
                assert(w[i] == a[i]);
            } else if i < a.len() + t.len() {
                assert(w[i] == t[i - a.len()]);
            } else {
                assert(w[i] == b[i - a.len() - t.len()]);
            }
        }
    }
    assert(ascii_lowercase(a + t + b) =~= ascii_lowercase(a) + ascii_lowercase(t) + ascii_lowercase(
        b,
    ));
    if mentions_rate_limit_spec(ascii_lowercase(t)) {
        law_rate_limit_marker_survives_context(ascii_lowercase(a), ascii_lowercase(t), ascii_lowercase(b));
    }
}

// ───────────────────────────── profile merge ─────────────────────────────

/// Merging a profile onto the baseline merges their environments key by key:
/// a variable the profile sets takes the profile's value, any other keeps the
/// baseline's.
pub proof fn law_merged_environment_is_keywise(
    base: Seq<(String, String)>,
    overlay: Seq<(String, String)>,
)
    ensures
        env_map(base + overlay) == env_map(base).union_prefer_right(env_map(overlay)),
    decreases overlay.len(),
{
    if overlay.len() == 0 {
        assert(base + overlay =~= base);
        assert(env_map(base).union_prefer_right(env_map(overlay)) =~= env_map(base));
    } else {
        law_merged_environment_is_keywise(base, overlay.drop_last());
        assert((base + overlay).drop_last() =~= base + overlay.drop_last());
        assert((base + overlay).last() == overlay.last());
        assert(env_map(base + overlay) =~= env_map(base).union_prefer_right(env_map(overlay)));
    }
}

/// Rubric overrides merge field by field: for each variation, a bound or a
/// list of checks that the profile's overrides set wins over the baseline's,
/// and the baseline's stands where the profile sets none.
pub proof fn law_merged_overrides_fieldwise(
    base: Seq<OverrideView>,
    overlay: Seq<OverrideView>,
    sid: Seq<char>,
    vid: Seq<char>,
)
    ensures
        last_min_words(base + overlay, sid, vid, (base + overlay).len()) == pick_last(
            last_min_words(overlay, sid, vid, overlay.len()),
            last_min_words(base, sid, vid, base.len()),
        ),
        last_max_words(base + overlay, sid, vid, (base + overlay).len()) == pick_last(
            last_max_words(overlay, sid, vid, overlay.len()),
            last_max_words(base, sid, vid, base.len()),
        ),
        last_additional_checks(base + overlay, sid, vid, (base + overlay).len()) == pick_last(
            last_additional_checks(overlay, sid, vid, overlay.len()),
            last_additional_checks(base, sid, vid, base.len()),
        ),
    decreases overlay.len(),
{
    let w = base + overlay;
    if overlay.len() == 0 {
        assert(w =~= base);
    } else {
        let o1 = overlay.drop_last();
        law_merged_overrides_fieldwise(base, o1, sid, vid);
        assert(base + o1 =~= w.take(w.len() - 1));
        assert(w[w.len() - 1] == overlay[overlay.len() - 1]);
        lemma_last_on_prefix(w, base + o1, sid, vid, (w.len() - 1) as nat);
        lemma_last_on_prefix(overlay, o1, sid, vid, (overlay.len() - 1) as nat);
    }
}

/// The later of two settings: `later` where it is set, else `earlier`.
pub open spec fn pick_last<T>(later: Option<T>, earlier: Option<T>) -> Option<T> {
    match later {
        Some(v) => Some(v),
        None => earlier,
    }
}

/// The overrides of a prefix give the same answers as the prefix itself.
proof fn lemma_last_on_prefix(
    whole: Seq<OverrideView>,
    prefix: Seq<OverrideView>,
    sid: Seq<char>,
    vid: Seq<char>,
    n: nat,
)
    requires
        n <= prefix.len(),
        n <= whole.len(),
        forall|i: int| 0 <= i < n ==> whole[i] == prefix[i],
    ensures
        last_min_words(whole, sid, vid, n) == last_min_words(prefix, sid, vid, n),
        last_max_words(whole, sid, vid, n) == last_max_words(prefix, sid, vid, n),
        last_additional_checks(whole, sid, vid, n) == last_additional_checks(prefix, sid, vid, n),
    decreases n,
{
    if n > 0 {
        lemma_last_on_prefix(whole, prefix, sid, vid, (n - 1) as nat);
        assert(whole[n - 1] == prefix[n - 1]);
    }
}

} // verus!
