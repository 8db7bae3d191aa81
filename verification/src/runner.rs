//! The evaluation runner: its options, the command for each invocation, and
//! the start of a suite run.
//!
//! A run itself is the state machine of `suite_run`: the caller performs each
//! action it asks for (launching the agent, pausing, scoring a response,
//! reporting progress) and answers with the matching event, while the run
//! decides how many trials each variation gets, when a rate-limited attempt is
//! retried and after what wait, and whether a variation and a scenario pass.

use vstd::prelude::*;
use crate::command::{CommandPlan, invocation_env, ops_view, plan_command};
use crate::config::{AgentCatalog, ConfigError, EvalConfig, chosen_bin, is_merge, mode_name};
use crate::prompt::prompt_text;
use crate::scenario::{EvalScenario, EvalScenarioSuite, EvalVariation, selected_positions};
use crate::suite_run::{PlannedScenario, SuiteRun, Phase, variations_in, wf};
use crate::text::push_str;

verus! {

// ───────────────────────────── options ─────────────────────────────

/// Runtime options for one evaluation run: the agent profile and the
/// command-line choices.
pub struct CliRunnerOptions {
    /// The agent profile (binary, arguments, environment, execution budget).
    pub eval_config: EvalConfig,
    /// Ids of the scenarios to run (empty runs them all).
    pub scenario_ids: Vec<String>,
    /// When true no agent is launched; a stub response is scored instead.
    pub dry_run: bool,
    /// Command-line binary override; takes precedence over the profile's binary.
    pub bin_override: Option<String>,
}

impl CliRunnerOptions {
    /// Options for the given profile, running every scenario for real, with no
    /// binary override.
    pub fn new(eval_config: EvalConfig) -> (o: Self)
        ensures
            o.eval_config == eval_config,
            o.scenario_ids@.len() == 0,
            !o.dry_run,
            o.bin_override is None,
    {
        CliRunnerOptions {
            eval_config,
            scenario_ids: Vec::new(),
            dry_run: false,
            bin_override: None,
        }
    }

    /// Options for the built-in profile named `agent_id`, merged on top of the
    /// catalog's baseline, otherwise as `new`; `UnknownAgent` when the catalog
    /// has no such profile.
    pub fn for_agent(catalog: &AgentCatalog, agent_id: &str) -> (r: Result<Self, ConfigError>)
        ensures
            match r {
                Ok(o) => {
                    &&& exists|k: int|
                        0 <= k < catalog.profiles@.len() && is_merge(
                            catalog.baseline,
                            catalog.profiles@[k],
                            o.eval_config,
                        ) && o.eval_config.agent.id@ == agent_id@ && forall|j: int|
                            0 <= j < k ==> (#[trigger] catalog.profiles@[j]).agent_id@
                                != agent_id@
                    &&& o.scenario_ids@.len() == 0
                    &&& !o.dry_run
                    &&& o.bin_override is None
                },
                Err(ConfigError::UnknownAgent { agent_id: a }) => a@ == agent_id@ && forall|
                    k: int,
                | 0 <= k < catalog.profiles@.len() ==> (#[trigger] catalog.profiles@[k]).agent_id@
                    != agent_id@,
            },
    {
        match catalog.load_builtin(agent_id) {
            Ok(c) => Ok(CliRunnerOptions::new(c)),
            Err(e) => Err(e),
        }
    }
}


// ───────────────────────────── runner ─────────────────────────────

/// The fixed facts a report opens with.
pub struct ReportHeader {
    pub agent_id: String,
    pub agent_name: String,
    /// The agent mode in lower case.
    pub mode: String,
    pub provider: String,
    pub model: String,
    pub dry_run: bool,
}

/// Runner that drives an agent CLI as a subprocess.
pub struct CliEvalRunner {
    options: CliRunnerOptions,
}

/// `p` stands in the plan for the scenario `sc` at suite position `pos`.
pub open spec fn plans_scenario(p: PlannedScenario, sc: EvalScenario, pos: usize) -> bool {
    &&& p.index == pos
    &&& p.id@ == sc.id@
    &&& p.variation_ids@.len() == sc.variations@.len()
    &&& forall|j: int|
        0 <= j < sc.variations@.len() ==> (#[trigger] p.variation_ids@[j])@ == sc.variations@[j].id@
}

/// Number of variations of the scenarios at the first `n` of `positions`.
pub open spec fn variations_at(scenarios: Seq<EvalScenario>, positions: Seq<usize>, n: nat) -> nat
    decreases n,
{
    if n == 0 {
        0
    } else {
        variations_at(scenarios, positions, (n - 1) as nat) + scenarios[positions[n
            - 1] as int].variations@.len()
    }
}

impl CliEvalRunner {
    /// The options the runner was built with.
    pub closed spec fn opts(&self) -> CliRunnerOptions {
        self.options
    }

    pub fn new(options: CliRunnerOptions) -> (r: Self)
        ensures
            r.opts() == options,
    {
        CliEvalRunner { options }
    }

    /// The options the runner was built with.
    pub fn options(&self) -> (o: &CliRunnerOptions)
        ensures
            *o == self.opts(),
    {
        &self.options
    }

    /// The binary for this run: the override, else the profile's binary; `None`
    /// leaves the choice to auto-detection.
    pub fn bin(&self) -> (r: Option<String>)
        ensures
            r matches Some(b) ==> Some(b@) == chosen_bin(
                self.opts().bin_override,
                self.opts().eval_config.subprocess.bin,
            ),
            r is None <==> self.opts().bin_override is None
                && self.opts().eval_config.subprocess.bin is None,
    {
        self.options.eval_config.resolve_bin(self.options.bin_override.as_ref())
    }

    /// The command that invokes the agent on `variation` of `scenario`, given the
    /// caller's environment: the run's binary, the profile's arguments then the
    /// prompt, and the environment changes of `invocation_env`.
    pub fn command_for(
        &self,
        scenario: &EvalScenario,
        variation: &EvalVariation,
        parent_env: &Vec<(String, String)>,
    ) -> (c: CommandPlan)
        ensures
            c.program matches Some(b) ==> Some(b@) == chosen_bin(
                self.opts().bin_override,
                self.opts().eval_config.subprocess.bin,
            ),
            c.program is None <==> self.opts().bin_override is None
                && self.opts().eval_config.subprocess.bin is None,
            c.args@.len() == self.opts().eval_config.subprocess.args_prefix@.len() + 1,
            forall|i: int|
                0 <= i < self.opts().eval_config.subprocess.args_prefix@.len() ==> (
                #[trigger] c.args@[i])@ == self.opts().eval_config.subprocess.args_prefix@[i]@,
            c.args@.last()@ == prompt_text(variation.history@, variation.prompt@),
            ops_view(c.env@) == invocation_env(
                self.opts().eval_config.subprocess.env@,
                parent_env@,
                scenario.rubric.tools_enabled,
            ),
    {
        plan_command(&self.options.eval_config, self.bin(), scenario, variation, parent_env)
    }

    /// The header of this run's report.
    pub fn report_header(&self) -> (h: ReportHeader)
        ensures
            h.agent_id == self.opts().eval_config.agent.id,
            h.agent_name == self.opts().eval_config.agent.name,
            h.mode@ == mode_name(self.opts().eval_config.agent.mode),
            h.provider == self.opts().eval_config.model.provider,
            h.model == self.opts().eval_config.model.name,
            h.dry_run == self.opts().dry_run,
    {
        let cfg = &self.options.eval_config;
        let mut mode = String::new();
        push_str(&mut mode, cfg.agent.mode.name());
        ReportHeader {
            agent_id: cfg.agent.id.clone(),
            agent_name: cfg.agent.name.clone(),
            mode,
            provider: cfg.model.provider.clone(),
            model: cfg.model.name.clone(),
            dry_run: self.options.dry_run,
        }
    }

    /// Starts a run of the suite, restricted to the selected scenarios: the
    /// report header and the run, which plans every selected scenario in suite
    /// order with the profile's trials, retries, backoff and pause.
    pub fn run_suite(&self, suite: &EvalScenarioSuite) -> (r: (ReportHeader, SuiteRun))
        requires
            ({
                let pos = selected_positions(
                    suite.scenarios@,
                    self.opts().scenario_ids@,
                    suite.scenarios@.len(),
                );
                variations_at(suite.scenarios@, pos, pos.len()) <= usize::MAX
            }),
        ensures
            ({
                let pos = selected_positions(
                    suite.scenarios@,
                    self.opts().scenario_ids@,
                    suite.scenarios@.len(),
                );
                let cfg = self.opts().eval_config;
                let run = r.1@;
                &&& r.0.agent_id == cfg.agent.id
                &&& r.0.agent_name == cfg.agent.name
                &&& r.0.mode@ == mode_name(cfg.agent.mode)
                &&& r.0.provider == cfg.model.provider
                &&& r.0.model == cfg.model.name
                &&& r.0.dry_run == self.opts().dry_run
                &&& run.plan.len() == pos.len()
                &&& forall|k: int|
                    0 <= k < pos.len() ==> plans_scenario(
                        #[trigger] run.plan[k],
                        suite.scenarios@[pos[k] as int],
                        pos[k],
                    )
                &&& run.trials == if cfg.execution.trials == 0 {
                    1
                } else {
                    cfg.execution.trials as nat
                }
                &&& run.max_attempts == cfg.execution.retries + 1
                &&& run.backoff_secs == cfg.execution.rate_limit_backoff_secs
                &&& run.delay_ms == cfg.execution.delay_between_variations_ms
                &&& run.dry_run == self.opts().dry_run
                &&& run.phase == Phase::Idle
                &&& run.scenario == 0 && run.variation == 0 && run.trial == 0
                &&& run.attempt == 0 && run.passed_trials == 0 && run.duration_ms == 0
                &&& run.passed_variations == 0
                &&& wf(run)
            }),
    {
        let header = self.report_header();
        let positions = suite.filter_by_ids(&self.options.scenario_ids);
        let ghost sc = suite.scenarios@;
        proof {
            lemma_positions_in_range(suite.scenarios@, self.opts().scenario_ids@, suite.scenarios@.len());
        }
        let mut plan: Vec<PlannedScenario> = Vec::new();
        let mut k: usize = 0;
        while k < positions.len()
            invariant
                sc == suite.scenarios@,
                positions@ == selected_positions(
                    suite.scenarios@,
                    self.opts().scenario_ids@,
                    suite.scenarios@.len(),
                ),
                k <= positions@.len(),
                plan@.len() == k,
                forall|j: int| 0 <= j < positions@.len() ==> positions@[j] < sc.len(),
                forall|j: int|
                    0 <= j < k ==> plans_scenario(#[trigger] plan@[j], sc[positions@[j] as int], positions@[j]),
                variations_in(plan@, k as nat) == variations_at(sc, positions@, k as nat),
            decreases positions@.len() - k,
        {
            let i = positions[k];
            let scenario = &suite.scenarios[i];
            let mut ids: Vec<String> = Vec::new();
            let mut j: usize = 0;
            while j < scenario.variations.len()
                invariant
                    j <= scenario.variations@.len(),
                    ids@.len() == j,
                    forall|m: int| 0 <= m < j ==> (#[trigger] ids@[m])@ == scenario.variations@[m].id@,
                decreases scenario.variations@.len() - j,
            {
                ids.push(scenario.variations[j].id.clone());
                j = j + 1;
            }
            let entry = PlannedScenario { index: i, id: scenario.id.clone(), variation_ids: ids };
            let ghost before = plan@;
            plan.push(entry);
            proof {
                assert(plan@.take(k as int) == before);
                lemma_variations_in_prefix(plan@, k as nat);
            }
            k = k + 1;
        }
        let cfg = &self.options.eval_config;
        let run = SuiteRun::new(
            plan,
            cfg.execution.trials,
            cfg.execution.retries,
            cfg.execution.rate_limit_backoff_secs,
            cfg.execution.delay_between_variations_ms,
            self.options.dry_run,
        );
        (header, run)
    }
}

proof fn lemma_variations_in_prefix(plan: Seq<PlannedScenario>, k: nat)
    requires
        k < plan.len(),
    ensures
        variations_in(plan, (k + 1) as nat) == variations_in(plan.take(k as int), k as nat)
            + plan[k as int].variation_ids@.len(),
{
    lemma_variations_in_take(plan, k, k);
}

proof fn lemma_variations_in_take(plan: Seq<PlannedScenario>, k: nat, n: nat)
    requires
        n <= k <= plan.len(),
    ensures
        variations_in(plan, n) == variations_in(plan.take(k as int), n),
    decreases n,
{
    if n > 0 {
        lemma_variations_in_take(plan, k, (n - 1) as nat);
    }
}

proof fn lemma_positions_in_range(scenarios: Seq<EvalScenario>, ids: Seq<String>, n: nat)
    requires
        n <= scenarios.len(),
    ensures
        forall|j: int|
            0 <= j < selected_positions(scenarios, ids, n).len() ==> #[trigger] selected_positions(
                scenarios,
                ids,
                n,
            )[j] < n,
    decreases n,
{
    if n > 0 {
        lemma_positions_in_range(scenarios, ids, (n - 1) as nat);
        let earlier = selected_positions(scenarios, ids, (n - 1) as nat);
        let all = selected_positions(scenarios, ids, n);
        assert forall|j: int| 0 <= j < all.len() implies #[trigger] all[j] < n by {
            if j < earlier.len() {
                assert(all[j] == earlier[j]);
            }
        }
    }
}

} // verus!
