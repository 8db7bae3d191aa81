//! One run of a scenario suite as a state machine.
//!
//! The caller performs each [`Action`] and answers with the [`Event`] it
//! asks for: `Start` first, `AgentReturned` after `Invoke`, `Evaluated` after
//! `Evaluate`, and `Continue` after every other action, until `Finished`.

use vstd::prelude::*;
use crate::prompt::{dry_run_response, dry_run_text};
use crate::command::{
    error_text,
    is_silent_failure_spec,
    is_silent_transient_failure,
    opt_error,
    PipelineError,
    PipelineErrorView,
};
use crate::text::{is_rate_limit_error, lowercase_of, mentions_rate_limit_spec};

verus! {

/// A scenario selected for the run: its position in the suite, its id, and the
/// ids of its variations.
pub struct PlannedScenario {
    pub index: usize,
    pub id: String,
    pub variation_ids: Vec<String>,
}

/// Where the run stands, and which event it waits for.
#[derive(PartialEq, Eq, Structural, Clone, Copy)]
pub enum Phase {
    /// Not started: waits for `Start`.
    Idle,
    /// `ProfileStarted` was reported.
    Announced,
    /// `TrialStarted` was reported.
    TrialAnnounced,
    /// The agent was launched: waits for `AgentReturned`.
    AwaitingAgent,
    /// A rate-limited attempt is being backed off.
    BackingOff,
    /// A response is being scored: waits for `Evaluated`.
    Evaluating,
    /// Pause between two trials.
    TrialPause,
    /// `VariationDone` was reported.
    VariationReported,
    /// Pause after a variation.
    VariationPause,
    /// `ScenarioDone` was reported.
    ScenarioReported,
    /// The run is over.
    Finished,
}

/// What the caller reports back.
pub enum Event {
    /// Begin the run.
    Start,
    /// The last action was carried out.
    Continue,
    /// The agent finished: its cleaned-up output and, if it failed, why.
    AgentReturned { response: String, pipeline_error: Option<PipelineError> },
    /// A response was scored.
    Evaluated { passed: bool, duration_ms: u64 },
}

/// What the caller is asked to do next. `scenario` is a position in the suite,
/// `variation` a position in that scenario, `trial` and `attempt` count from 1.
pub enum Action {
    /// Report the start of the run and how many variations it covers.
    ProfileStarted { total_variations: usize },
    /// Report the start of a trial.
    TrialStarted { scenario: usize, variation: usize, trial: u32, total_trials: u32 },
    /// Launch the agent on the variation's prompt.
    Invoke { scenario: usize, variation: usize },
    /// Report a rate-limited attempt, then wait `wait_secs` seconds.
    RateLimitRetry {
        scenario: usize,
        variation: usize,
        attempt: u64,
        max_attempts: u64,
        wait_secs: u64,
    },
    /// Score this response of the variation.
    Evaluate {
        scenario: usize,
        variation: usize,
        response: String,
        pipeline_error: Option<PipelineError>,
    },
    /// Wait `ms` milliseconds.
    Sleep { ms: u64 },
    /// Report the aggregate of a variation's trials.
    VariationDone {
        scenario: usize,
        variation: usize,
        passed: bool,
        passed_trials: u32,
        total_trials: u32,
        duration_ms: u64,
    },
    /// Report the end of a scenario: how many of its variations passed, out of
    /// how many.
    ScenarioDone { scenario: usize, passed_variations: usize, total_variations: usize },
    /// The run is over.
    Finished,
}

/// The mathematical content of an [`Event`].
pub enum EventView {
    Start,
    Continue,
    AgentReturned { response: Seq<char>, pipeline_error: Option<PipelineErrorView> },
    Evaluated { passed: bool, duration_ms: nat },
}

/// The mathematical content of an [`Action`].
pub enum ActionView {
    ProfileStarted { total_variations: nat },
    TrialStarted { scenario: nat, variation: nat, trial: nat, total_trials: nat },
    Invoke { scenario: nat, variation: nat },
    RateLimitRetry { scenario: nat, variation: nat, attempt: nat, max_attempts: nat, wait_secs: nat },
    Evaluate {
        scenario: nat,
        variation: nat,
        response: Seq<char>,
        pipeline_error: Option<PipelineErrorView>,
    },
    Sleep { ms: nat },
    VariationDone {
        scenario: nat,
        variation: nat,
        passed: bool,
        passed_trials: nat,
        total_trials: nat,
        duration_ms: nat,
    },
    ScenarioDone { scenario: nat, passed_variations: nat, total_variations: nat },
    Finished,
}

impl View for Event {
    type V = EventView;

    open spec fn view(&self) -> EventView {
        match self {
            Event::Start => EventView::Start,
            Event::Continue => EventView::Continue,
            Event::AgentReturned { response, pipeline_error } => EventView::AgentReturned {
                response: response@,
                pipeline_error: opt_error(*pipeline_error),
            },
            Event::Evaluated { passed, duration_ms } => EventView::Evaluated {
                passed: *passed,
                duration_ms: *duration_ms as nat,
            },
        }
    }
}

impl View for Action {
    type V = ActionView;

    open spec fn view(&self) -> ActionView {
        match self {
            Action::ProfileStarted { total_variations } => ActionView::ProfileStarted {
                total_variations: *total_variations as nat,
            },
            Action::TrialStarted { scenario, variation, trial, total_trials } =>
                ActionView::TrialStarted {
                scenario: *scenario as nat,
                variation: *variation as nat,
                trial: *trial as nat,
                total_trials: *total_trials as nat,
            },
            Action::Invoke { scenario, variation } => ActionView::Invoke {
                scenario: *scenario as nat,
                variation: *variation as nat,
            },
            Action::RateLimitRetry { scenario, variation, attempt, max_attempts, wait_secs } =>
                ActionView::RateLimitRetry {
                scenario: *scenario as nat,
                variation: *variation as nat,
                attempt: *attempt as nat,
                max_attempts: *max_attempts as nat,
                wait_secs: *wait_secs as nat,
            },
            Action::Evaluate { scenario, variation, response, pipeline_error } =>
                ActionView::Evaluate {
                scenario: *scenario as nat,
                variation: *variation as nat,
                response: response@,
                pipeline_error: opt_error(*pipeline_error),
            },
            Action::Sleep { ms } => ActionView::Sleep { ms: *ms as nat },
            Action::VariationDone {
                scenario,
                variation,
                passed,
                passed_trials,
                total_trials,
                duration_ms,
            } => ActionView::VariationDone {
                scenario: *scenario as nat,
                variation: *variation as nat,
                passed: *passed,
                passed_trials: *passed_trials as nat,
                total_trials: *total_trials as nat,
                duration_ms: *duration_ms as nat,
            },
            Action::ScenarioDone { scenario, passed_variations, total_variations } =>
                ActionView::ScenarioDone {
                scenario: *scenario as nat,
                passed_variations: *passed_variations as nat,
                total_variations: *total_variations as nat,
            },
            Action::Finished => ActionView::Finished,
        }
    }
}

/// The mathematical state of a run.
pub struct RunState {
    pub plan: Seq<PlannedScenario>,
    pub total_variations: nat,
    /// Trials per variation (at least 1).
    pub trials: nat,
    /// Attempts allowed per trial: 1 plus the retries.
    pub max_attempts: nat,
    pub backoff_secs: nat,
    pub delay_ms: nat,
    pub dry_run: bool,
    pub phase: Phase,
    /// Position in `plan` of the current scenario.
    pub scenario: nat,
    /// Position of the current variation in its scenario.
    pub variation: nat,
    /// Trials of the current variation already scored.
    pub trial: nat,
    /// Attempts made in the current trial.
    pub attempt: nat,
    /// Scored trials of the current variation that passed.
    pub passed_trials: nat,
    /// Summed duration of the scored trials of the current variation.
    pub duration_ms: nat,
    /// Finished variations of the current scenario that passed.
    pub passed_variations: nat,
    /// The verdicts of the finished variations of the current scenario, in order.
    pub verdicts: Seq<bool>,
    /// The verdicts of the scored trials of the current variation, in order.
    pub trial_verdicts: Seq<bool>,
}

/// How many of the verdicts are passes.
pub open spec fn count_passed(v: Seq<bool>) -> nat
    decreases v.len(),
{
    if v.len() == 0 {
        0
    } else {
        count_passed(v.drop_last()) + if v.last() {
            1nat
        } else {
            0nat
        }
    }
}

/// Number of variations of the first `n` planned scenarios.
pub open spec fn variations_in(plan: Seq<PlannedScenario>, n: nat) -> nat
    decreases n,
{
    if n == 0 {
        0
    } else {
        variations_in(plan, (n - 1) as nat) + plan[n - 1].variation_ids@.len()
    }
}

/// Number of variations of the scenario at position `p` of the plan.
pub open spec fn variation_count(s: RunState, p: nat) -> nat {
    s.plan[p as int].variation_ids@.len()
}

/// Suite position of the scenario at position `p` of the plan.
pub open spec fn suite_position(s: RunState, p: nat) -> nat {
    s.plan[p as int].index as nat
}

/// The wait before retry number `attempt` (counting attempts from 1): the
/// base backoff doubled for each earlier retry, at most eight-fold, saturating
/// at `u64::MAX`.
pub open spec fn backoff_wait(backoff_secs: nat, attempt: nat) -> nat {
    let factor: nat = if attempt <= 1 {
        1
    } else if attempt == 2 {
        2
    } else if attempt == 3 {
        4
    } else {
        8
    };
    if backoff_secs * factor > u64::MAX {
        u64::MAX as nat
    } else {
        backoff_secs * factor
    }
}

/// An attempt's outcome calls for a retry: its error text or its output
/// reports a rate limit, or it failed silently (a failure status with nothing
/// printed on either stream).
pub open spec fn is_retryable(response: Seq<char>, pipeline_error: Option<PipelineErrorView>) -> bool {
    ||| (match pipeline_error {
        Some(e) => mentions_rate_limit_spec(lowercase_of(error_text(e))),
        None => false,
    })
    ||| mentions_rate_limit_spec(lowercase_of(response))
    ||| is_silent_failure_spec(pipeline_error, response)
}

/// Begin variation `v` of the scenario at plan position `p`.
pub open spec fn start_variation(s: RunState, p: nat, v: nat) -> (RunState, ActionView) {
    (
        RunState {
            phase: Phase::TrialAnnounced,
            scenario: p,
            variation: v,
            trial: 0,
            attempt: 0,
            passed_trials: 0,
            duration_ms: 0,
            trial_verdicts: Seq::empty(),
            ..s
        },
        ActionView::TrialStarted {
            scenario: suite_position(s, p),
            variation: v,
            trial: 1,
            total_trials: s.trials,
        },
    )
}

/// Enter the scenario at plan position `p`, or finish when there is none.
pub open spec fn enter_scenario(s: RunState, p: nat) -> (RunState, ActionView) {
    if p >= s.plan.len() {
        (RunState { phase: Phase::Finished, scenario: p, ..s }, ActionView::Finished)
    } else if variation_count(s, p) == 0 {
        (
            RunState {
                phase: Phase::ScenarioReported,
                scenario: p,
                variation: 0,
                passed_variations: 0,
                verdicts: Seq::empty(),
                ..s
            },
            ActionView::ScenarioDone {
                scenario: suite_position(s, p),
                passed_variations: 0,
                total_variations: 0,
            },
        )
    } else {
        start_variation(RunState { passed_variations: 0, verdicts: Seq::empty(), ..s }, p, 0)
    }
}

/// Move past the current variation: the next one, or the end of the scenario.
pub open spec fn next_variation(s: RunState) -> (RunState, ActionView) {
    if s.variation + 1 < variation_count(s, s.scenario) {
        start_variation(s, s.scenario, s.variation + 1)
    } else {
        (
            RunState { phase: Phase::ScenarioReported, ..s },
            ActionView::ScenarioDone {
                scenario: suite_position(s, s.scenario),
                passed_variations: s.passed_variations,
                total_variations: variation_count(s, s.scenario),
            },
        )
    }
}

/// After a trial is scored: another trial (after the pause, if any), or the
/// variation's aggregate, which passes when more than half of its trials did.
pub open spec fn after_trial(s: RunState, passed: bool, duration_ms: nat) -> (RunState, ActionView) {
    let t = s.trial + 1;
    let pt = if passed {
        s.passed_trials + 1
    } else {
        s.passed_trials
    };
    let d = s.duration_ms + duration_ms;
    let s1 = RunState {
        trial: t,
        passed_trials: pt,
        duration_ms: d,
        trial_verdicts: s.trial_verdicts.push(passed),
        ..s
    };
    if t < s.trials {
        if s.delay_ms > 0 {
            (RunState { phase: Phase::TrialPause, ..s1 }, ActionView::Sleep { ms: s.delay_ms })
        } else {
            (
                RunState { phase: Phase::TrialAnnounced, ..s1 },
                ActionView::TrialStarted {
                    scenario: suite_position(s, s.scenario),
                    variation: s.variation,
                    trial: t + 1,
                    total_trials: s.trials,
                },
            )
        }
    } else {
        let vp = pt * 2 > s.trials;
        (
            RunState {
                phase: Phase::VariationReported,
                passed_variations: if vp {
                    s.passed_variations + 1
                } else {
                    s.passed_variations
                },
                verdicts: s.verdicts.push(vp),
                ..s1
            },
            ActionView::VariationDone {
                scenario: suite_position(s, s.scenario),
                variation: s.variation,
                passed: vp,
                passed_trials: pt,
                total_trials: s.trials,
                duration_ms: d,
            },
        )
    }
}

/// Whether the run, in state `s`, waits for event `e`.
pub open spec fn accepts(s: RunState, e: EventView) -> bool {
    match s.phase {
        Phase::Idle => e is Start,
        Phase::AwaitingAgent => e is AgentReturned,
        Phase::Evaluating => e is Evaluated,
        Phase::Finished => false,
        _ => e is Continue,
    }
}

/// The transition of the run: its next state and the action it asks for.
pub open spec fn next(s: RunState, e: EventView) -> (RunState, ActionView) {
    match s.phase {
        Phase::Idle => (
            RunState { phase: Phase::Announced, ..s },
            ActionView::ProfileStarted { total_variations: s.total_variations },
        ),
        Phase::Announced => enter_scenario(s, 0),
        Phase::TrialAnnounced => if s.dry_run {
            (
                RunState { phase: Phase::Evaluating, ..s },
                ActionView::Evaluate {
                    scenario: suite_position(s, s.scenario),
                    variation: s.variation,
                    response: dry_run_text(
                        s.plan[s.scenario as int].id@,
                        s.plan[s.scenario as int].variation_ids@[s.variation as int]@,
                    ),
                    pipeline_error: None,
                },
            )
        } else {
            (
                RunState { phase: Phase::AwaitingAgent, attempt: 1, ..s },
                ActionView::Invoke { scenario: suite_position(s, s.scenario), variation: s.variation },
            )
        },
        Phase::AwaitingAgent => match e {
            EventView::AgentReturned { response, pipeline_error } => if is_retryable(
                response,
                pipeline_error,
            ) && s.attempt < s.max_attempts {
                (
                    RunState { phase: Phase::BackingOff, ..s },
                    ActionView::RateLimitRetry {
                        scenario: suite_position(s, s.scenario),
                        variation: s.variation,
                        attempt: s.attempt,
                        max_attempts: s.max_attempts,
                        wait_secs: backoff_wait(s.backoff_secs, s.attempt),
                    },
                )
            } else {
                (
                    RunState { phase: Phase::Evaluating, ..s },
                    ActionView::Evaluate {
                        scenario: suite_position(s, s.scenario),
                        variation: s.variation,
                        response,
                        pipeline_error,
                    },
                )
            },
            _ => (s, ActionView::Finished),
        },
        Phase::BackingOff => (
            RunState { phase: Phase::AwaitingAgent, attempt: s.attempt + 1, ..s },
            ActionView::Invoke { scenario: suite_position(s, s.scenario), variation: s.variation },
        ),
        Phase::Evaluating => match e {
            EventView::Evaluated { passed, duration_ms } => after_trial(s, passed, duration_ms),
            _ => (s, ActionView::Finished),
        },
        Phase::TrialPause => (
            RunState { phase: Phase::TrialAnnounced, ..s },
            ActionView::TrialStarted {
                scenario: suite_position(s, s.scenario),
                variation: s.variation,
                trial: s.trial + 1,
                total_trials: s.trials,
            },
        ),
        Phase::VariationReported => if s.delay_ms > 0 {
            (RunState { phase: Phase::VariationPause, ..s }, ActionView::Sleep { ms: s.delay_ms })
        } else {
            next_variation(s)
        },
        Phase::VariationPause => next_variation(s),
        Phase::ScenarioReported => enter_scenario(s, s.scenario + 1),
        Phase::Finished => (s, ActionView::Finished),
    }
}

/// The invariant of a run.
pub open spec fn wf(s: RunState) -> bool {
    &&& 1 <= s.trials <= u32::MAX
    &&& 1 <= s.max_attempts <= u32::MAX + 1
    &&& s.backoff_secs <= u64::MAX
    &&& s.delay_ms <= u64::MAX
    &&& s.duration_ms <= u64::MAX
    &&& s.total_variations == variations_in(s.plan, s.plan.len())
    &&& s.total_variations <= usize::MAX
    &&& s.plan.len() <= usize::MAX
    &&& s.scenario <= s.plan.len()
    &&& s.passed_trials <= s.trial
    &&& s.trial_verdicts.len() == s.trial
    &&& s.passed_trials == count_passed(s.trial_verdicts)
    &&& s.passed_variations <= s.verdicts.len()
    &&& s.passed_variations == count_passed(s.verdicts)
    &&& match s.phase {
        Phase::Idle | Phase::Announced => s.scenario == 0,
        Phase::TrialAnnounced | Phase::Evaluating => in_variation(s) && s.trial < s.trials
            && s.verdicts.len() == s.variation,
        Phase::AwaitingAgent => in_variation(s) && s.trial < s.trials && 1 <= s.attempt
            <= s.max_attempts && s.verdicts.len() == s.variation,
        Phase::BackingOff => in_variation(s) && s.trial < s.trials && 1 <= s.attempt
            < s.max_attempts && s.verdicts.len() == s.variation,
        Phase::TrialPause => in_variation(s) && 1 <= s.trial < s.trials && s.verdicts.len()
            == s.variation,
        Phase::VariationReported | Phase::VariationPause => in_variation(s) && s.trial == s.trials
            && s.verdicts.len() == s.variation + 1,
        Phase::ScenarioReported => s.scenario < s.plan.len() && s.verdicts.len()
            == variation_count(s, s.scenario),
        Phase::Finished => true,
    }
}

/// The current scenario and variation exist.
pub open spec fn in_variation(s: RunState) -> bool {
    s.scenario < s.plan.len() && s.variation < variation_count(s, s.scenario)
}


// ───────────────────────────── execution ─────────────────────────────

/// A run of a scenario suite in progress.
pub struct SuiteRun {
    plan: Vec<PlannedScenario>,
    total_variations: usize,
    trials: u32,
    max_attempts: u64,
    backoff_secs: u64,
    delay_ms: u64,
    dry_run: bool,
    phase: Phase,
    scenario: usize,
    variation: usize,
    trial: u32,
    attempt: u64,
    passed_trials: u32,
    duration_ms: u64,
    passed_variations: usize,
    verdicts: Ghost<Seq<bool>>,
    trial_verdicts: Ghost<Seq<bool>>,
}

impl View for SuiteRun {
    type V = RunState;

    closed spec fn view(&self) -> RunState {
        RunState {
            plan: self.plan@,
            total_variations: self.total_variations as nat,
            trials: self.trials as nat,
            max_attempts: self.max_attempts as nat,
            backoff_secs: self.backoff_secs as nat,
            delay_ms: self.delay_ms as nat,
            dry_run: self.dry_run,
            phase: self.phase,
            scenario: self.scenario as nat,
            variation: self.variation as nat,
            trial: self.trial as nat,
            attempt: self.attempt as nat,
            passed_trials: self.passed_trials as nat,
            duration_ms: self.duration_ms as nat,
            passed_variations: self.passed_variations as nat,
            verdicts: self.verdicts@,
            trial_verdicts: self.trial_verdicts@,
        }
    }
}

/// The wait, in seconds, before retry number `attempt` (see `backoff_wait`).
pub fn rate_limit_wait_secs(backoff_secs: u64, attempt: u64) -> (w: u64)
    ensures
        w == backoff_wait(backoff_secs as nat, attempt as nat),
{
    let factor: u64 = if attempt <= 1 {
        1
    } else if attempt == 2 {
        2
    } else if attempt == 3 {
        4
    } else {
        8
    };
    match backoff_secs.checked_mul(factor) {
        Some(w) => w,
        None => u64::MAX,
    }
}

/// Whether an attempt's outcome calls for a retry (see `is_retryable`).
pub fn should_retry(response: &str, pipeline_error: Option<&PipelineError>) -> (b: bool)
    ensures
        b == is_retryable(
            response@,
            match pipeline_error {
                Some(e) => Some(e@),
                None => None,
            },
        ),
{
    let by_error = match pipeline_error {
        Some(e) => {
            let t = e.text();
            is_rate_limit_error(t.as_str())
        },
        None => false,
    };
    by_error || is_rate_limit_error(response) || is_silent_transient_failure(pipeline_error, response)
}

impl SuiteRun {
    /// A run over `plan`, not yet started. `trials` of 0 counts as 1; each
    /// trial may make `1 + retries` attempts.
    pub fn new(
        plan: Vec<PlannedScenario>,
        trials: u32,
        retries: u32,
        backoff_secs: u64,
        delay_ms: u64,
        dry_run: bool,
    ) -> (r: SuiteRun)
        requires
            variations_in(plan@, plan@.len()) <= usize::MAX,
        ensures
            r@.plan == plan@,
            r@.trials == if trials == 0 {
                1
            } else {
                trials as nat
            },
            r@.max_attempts == retries + 1,
            r@.backoff_secs == backoff_secs,
            r@.delay_ms == delay_ms,
            r@.dry_run == dry_run,
            r@.phase == Phase::Idle,
            r@.scenario == 0,
            r@.variation == 0,
            r@.trial == 0,
            r@.attempt == 0,
            r@.passed_trials == 0,
            r@.duration_ms == 0,
            r@.passed_variations == 0,
            r@.verdicts.len() == 0,
            r@.trial_verdicts.len() == 0,
            wf(r@),
    {
        let mut total: usize = 0;
        let mut k: usize = 0;
        while k < plan.len()
            invariant
                k <= plan@.len(),
                total == variations_in(plan@, k as nat),
                variations_in(plan@, plan@.len()) <= usize::MAX,
            decreases plan@.len() - k,
        {
            proof {
                lemma_variations_in_monotone(plan@, (k + 1) as nat, plan@.len());
            }
            total = total + plan[k].variation_ids.len();
            k = k + 1;
        }
        SuiteRun {
            plan,
            total_variations: total,
            trials: if trials == 0 {
                1
            } else {
                trials
            },
            max_attempts: retries as u64 + 1,
            backoff_secs,
            delay_ms,
            dry_run,
            phase: Phase::Idle,
            scenario: 0,
            variation: 0,
            trial: 0,
            attempt: 0,
            passed_trials: 0,
            duration_ms: 0,
            passed_variations: 0,
            verdicts: Ghost(Seq::empty()),
            trial_verdicts: Ghost(Seq::empty()),
        }
    }

    /// Whether the run waits for `e`.
    pub fn accepts_event(&self, e: &Event) -> (b: bool)
        ensures
            b == accepts(self@, e@),
    {
        match self.phase {
            Phase::Idle => matches!(e, Event::Start),
            Phase::AwaitingAgent => matches!(e, Event::AgentReturned { .. }),
            Phase::Evaluating => matches!(e, Event::Evaluated { .. }),
            Phase::Finished => false,
            _ => matches!(e, Event::Continue),
        }
    }

    /// Whether the run is over.
    pub fn is_finished(&self) -> (b: bool)
        ensures
            b == (self@.phase == Phase::Finished),
    {
        self.phase == Phase::Finished
    }

    /// The duration already summed for the current variation.
    pub fn duration_so_far(&self) -> (d: u64)
        ensures
            d == self@.duration_ms,
    {
        self.duration_ms
    }

    fn start_variation(&mut self, p: usize, v: usize) -> (a: Action)
        requires
            p < old(self)@.plan.len(),
        ensures
            (final(self)@, a@) == start_variation(old(self)@, p as nat, v as nat),
    {
        self.phase = Phase::TrialAnnounced;
        self.scenario = p;
        self.variation = v;
        self.trial = 0;
        self.attempt = 0;
        self.passed_trials = 0;
        self.duration_ms = 0;
        self.trial_verdicts = Ghost(Seq::empty());
        Action::TrialStarted {
            scenario: self.plan[p].index,
            variation: v,
            trial: 1,
            total_trials: self.trials,
        }
    }

    fn enter_scenario(&mut self, p: usize) -> (a: Action)
        ensures
            (final(self)@, a@) == enter_scenario(old(self)@, p as nat),
    {
        if p >= self.plan.len() {
            self.phase = Phase::Finished;
            self.scenario = p;
            Action::Finished
        } else if self.plan[p].variation_ids.len() == 0 {
            self.phase = Phase::ScenarioReported;
            self.scenario = p;
            self.variation = 0;
            self.passed_variations = 0;
            self.verdicts = Ghost(Seq::empty());
            Action::ScenarioDone { scenario: self.plan[p].index, passed_variations: 0, total_variations: 0 }
        } else {
            self.passed_variations = 0;
            self.verdicts = Ghost(Seq::empty());
            self.start_variation(p, 0)
        }
    }

    fn next_variation(&mut self) -> (a: Action)
        requires
            in_variation(old(self)@),
        ensures
            (final(self)@, a@) == next_variation(old(self)@),
    {
        let p = self.scenario;
        let n = self.plan[p].variation_ids.len();
        if self.variation < n - 1 {
            let v = self.variation + 1;
            self.start_variation(p, v)
        } else {
            self.phase = Phase::ScenarioReported;
            Action::ScenarioDone {
                scenario: self.plan[p].index,
                passed_variations: self.passed_variations,
                total_variations: n,
            }
        }
    }

    fn after_trial(&mut self, passed: bool, duration_ms: u64) -> (a: Action)
        requires
            in_variation(old(self)@),
            old(self)@.trial < old(self)@.trials,
            old(self)@.passed_trials <= old(self)@.trial,
            old(self)@.trial_verdicts.len() == old(self)@.trial,
            old(self)@.passed_variations <= old(self)@.variation,
            old(self)@.duration_ms + duration_ms <= u64::MAX,
        ensures
            (final(self)@, a@) == after_trial(old(self)@, passed, duration_ms as nat),
    {
        let t = self.trial + 1;
        let pt = if passed {
            self.passed_trials + 1
        } else {
            self.passed_trials
        };
        let d = self.duration_ms + duration_ms;
        self.trial = t;
        self.passed_trials = pt;
        self.duration_ms = d;
        self.trial_verdicts = Ghost(self.trial_verdicts@.push(passed));
        let p = self.scenario;
        if t < self.trials {
            if self.delay_ms > 0 {
                self.phase = Phase::TrialPause;
                Action::Sleep { ms: self.delay_ms }
            } else {
                self.phase = Phase::TrialAnnounced;
                Action::TrialStarted {
                    scenario: self.plan[p].index,
                    variation: self.variation,
                    trial: t + 1,
                    total_trials: self.trials,
                }
            }
        } else {
            let vp = (pt as u64) * 2 > self.trials as u64;
            self.phase = Phase::VariationReported;
            if vp {
                let n = self.plan[p].variation_ids.len();
                assert(self.passed_variations < n);
                self.passed_variations = self.passed_variations + 1;
            }
            self.verdicts = Ghost(self.verdicts@.push(vp));
            Action::VariationDone {
                scenario: self.plan[p].index,
                variation: self.variation,
                passed: vp,
                passed_trials: pt,
                total_trials: self.trials,
                duration_ms: d,
            }
        }
    }

    /// Advances the run by one event: the run moves to its next state and
    /// returns the action it asks for.
    pub fn step(&mut self, event: Event) -> (a: Action)
        requires
            wf(old(self)@),
            accepts(old(self)@, event@),
            event@ matches EventView::Evaluated { duration_ms, .. } ==> old(self)@.duration_ms
                + duration_ms <= u64::MAX,
        ensures
            (final(self)@, a@) == next(old(self)@, event@),
            wf(final(self)@),
    {
        proof {
            lemma_next_preserves_wf(self@, event@);
        }
        match self.phase {
            Phase::Idle => {
                self.phase = Phase::Announced;
                Action::ProfileStarted { total_variations: self.total_variations }
            },
            Phase::Announced => self.enter_scenario(0),
            Phase::TrialAnnounced => {
                let p = self.scenario;
                let v = self.variation;
                if self.dry_run {
                    let response = dry_run_response(
                        self.plan[p].id.as_str(),
                        self.plan[p].variation_ids[v].as_str(),
                    );
                    self.phase = Phase::Evaluating;
                    Action::Evaluate {
                        scenario: self.plan[p].index,
                        variation: v,
                        response,
                        pipeline_error: None,
                    }
                } else {
                    self.phase = Phase::AwaitingAgent;
                    self.attempt = 1;
                    Action::Invoke { scenario: self.plan[p].index, variation: v }
                }
            },
            Phase::AwaitingAgent => match event {
                Event::AgentReturned { response, pipeline_error } => {
                    let p = self.scenario;
                    let err: Option<&PipelineError> = match &pipeline_error {
                        Some(e) => Some(e),
                        None => None,
                    };
                    let retry = should_retry(response.as_str(), err);
                    if retry && self.attempt < self.max_attempts {
                        self.phase = Phase::BackingOff;
                        Action::RateLimitRetry {
                            scenario: self.plan[p].index,
                            variation: self.variation,
                            attempt: self.attempt,
                            max_attempts: self.max_attempts,
                            wait_secs: rate_limit_wait_secs(self.backoff_secs, self.attempt),
                        }
                    } else {
                        self.phase = Phase::Evaluating;
                        Action::Evaluate {
                            scenario: self.plan[p].index,
                            variation: self.variation,
                            response,
                            pipeline_error,
                        }
                    }
                },
                _ => Action::Finished,
            },
            Phase::BackingOff => {
                let p = self.scenario;
                self.phase = Phase::AwaitingAgent;
                self.attempt = self.attempt + 1;
                Action::Invoke { scenario: self.plan[p].index, variation: self.variation }
            },
            Phase::Evaluating => match event {
                Event::Evaluated { passed, duration_ms } => self.after_trial(passed, duration_ms),
                _ => Action::Finished,
            },
            Phase::TrialPause => {
                let p = self.scenario;
                self.phase = Phase::TrialAnnounced;
                Action::TrialStarted {
                    scenario: self.plan[p].index,
                    variation: self.variation,
                    trial: self.trial + 1,
                    total_trials: self.trials,
                }
            },
            Phase::VariationReported => {
                if self.delay_ms > 0 {
                    self.phase = Phase::VariationPause;
                    Action::Sleep { ms: self.delay_ms }
                } else {
                    self.next_variation()
                }
            },
            Phase::VariationPause => self.next_variation(),
            Phase::ScenarioReported => {
                let p = self.scenario + 1;
                self.enter_scenario(p)
            },
            Phase::Finished => Action::Finished,
        }
    }
}

proof fn lemma_variations_in_monotone(plan: Seq<PlannedScenario>, a: nat, b: nat)
    requires
        a <= b,
    ensures
        variations_in(plan, a) <= variations_in(plan, b),
    decreases b - a,
{
    if a < b {
        lemma_variations_in_monotone(plan, a, (b - 1) as nat);
    }
}

/// Every transition keeps the run's invariant.
pub proof fn lemma_next_preserves_wf(s: RunState, e: EventView)
    requires
        wf(s),
        accepts(s, e),
        e matches EventView::Evaluated { duration_ms, .. } ==> s.duration_ms + duration_ms
            <= u64::MAX,
    ensures
        wf(next(s, e).0),
{
    if s.phase == Phase::Evaluating {
        if let EventView::Evaluated { passed, duration_ms } = e {
            let pt = if passed {
                s.passed_trials + 1
            } else {
                s.passed_trials
            };
            let vp = pt * 2 > s.trials;
            let v = s.verdicts.push(vp);
            assert(v.drop_last() == s.verdicts);
        }
    }
    if s.phase == Phase::Evaluating {
        if let EventView::Evaluated { passed, duration_ms } = e {
            let tv = s.trial_verdicts.push(passed);
            assert(tv.drop_last() == s.trial_verdicts);
        }
    }
}

} // verus!
