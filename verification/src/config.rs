//! Agent profiles: which binary to run, how, and with what execution budget.

use vstd::prelude::*;
use crate::scenario::{RubricView, VariationRubric, texts};
use crate::text::same_text;

verus! {

/// How much latitude the agent is given.
#[derive(PartialEq, Eq, Structural, Clone, Copy)]
pub enum AgentMode {
    Autonomous,
    Sandboxed,
    Iterative,
}

/// The lower-case name of a mode, as reports print it.
pub open spec fn mode_name(mode: AgentMode) -> Seq<char> {
    match mode {
        AgentMode::Autonomous => "autonomous"@,
        AgentMode::Sandboxed => "sandboxed"@,
        AgentMode::Iterative => "iterative"@,
    }
}

impl AgentMode {
    /// The lower-case name of the mode.
    pub fn name(&self) -> (r: &'static str)
        ensures
            r@ == mode_name(*self),
    {
        match self {
            AgentMode::Autonomous => "autonomous",
            AgentMode::Sandboxed => "sandboxed",
            AgentMode::Iterative => "iterative",
        }
    }
}

/// Identity of the agent under test.
pub struct AgentInfo {
    pub id: String,
    pub name: String,
    pub mode: AgentMode,
}

/// The model the agent is configured to use.
pub struct ModelInfo {
    pub provider: String,
    pub name: String,
}

/// How the agent binary is invoked.
pub struct SubprocessConfig {
    /// Binary to invoke; `None` leaves the choice to auto-detection.
    pub bin: Option<String>,
    /// Arguments placed before the prompt.
    pub args_prefix: Vec<String>,
    /// Environment variables set for every invocation, in order.
    pub env: Vec<(String, String)>,
    /// A label to strip from the start of the agent's output.
    pub response_strip_prefix: Option<String>,
}

/// Execution budget of a run.
pub struct ExecutionConfig {
    /// Trials per variation (0 is treated as 1).
    pub trials: u32,
    /// Extra attempts allowed after a rate-limited attempt.
    pub retries: u32,
    /// Wall-clock limit of one invocation.
    pub timeout_secs: u64,
    /// Pause after each trial but the last, and after each variation.
    pub delay_between_variations_ms: u64,
    /// Base wait before retrying a rate-limited attempt.
    pub rate_limit_backoff_secs: u64,
}

/// A profile's change to the rubric of one variation of one scenario. Fields
/// left `None` keep what the variation (or an earlier override) says.
pub struct VariationOverride {
    pub scenario_id: String,
    pub variation_id: String,
    pub min_words: Option<u32>,
    pub max_words: Option<u32>,
    /// Named checks that must pass besides the variation's own.
    pub additional_checks: Option<Vec<String>>,
}

/// The mathematical content of a [`VariationOverride`].
pub struct OverrideView {
    pub scenario_id: Seq<char>,
    pub variation_id: Seq<char>,
    pub min_words: Option<u32>,
    pub max_words: Option<u32>,
    pub additional_checks: Option<Seq<Seq<char>>>,
}

impl View for VariationOverride {
    type V = OverrideView;

    open spec fn view(&self) -> OverrideView {
        OverrideView {
            scenario_id: self.scenario_id@,
            variation_id: self.variation_id@,
            min_words: self.min_words,
            max_words: self.max_words,
            additional_checks: match self.additional_checks {
                Some(c) => Some(texts(c@)),
                None => None,
            },
        }
    }
}

/// The views of a list of overrides.
pub open spec fn overrides_view(v: Seq<VariationOverride>) -> Seq<OverrideView> {
    v.map_values(|o: VariationOverride| o@)
}

/// A complete agent profile.
pub struct EvalConfig {
    pub agent: AgentInfo,
    pub model: ModelInfo,
    pub subprocess: SubprocessConfig,
    pub execution: ExecutionConfig,
    /// Rubric overrides, in the order the profile declares them.
    pub variation_overrides: Vec<VariationOverride>,
}

/// The override is for variation `vid` of scenario `sid`.
pub open spec fn overrides_variation(o: OverrideView, sid: Seq<char>, vid: Seq<char>) -> bool {
    o.scenario_id == sid && o.variation_id == vid
}

/// The word minimum set by the last of the first `n` overrides for the
/// variation that sets one.
pub open spec fn last_min_words(ovs: Seq<OverrideView>, sid: Seq<char>, vid: Seq<char>, n: nat) -> Option<u32>
    decreases n,
{
    if n == 0 {
        None
    } else if overrides_variation(ovs[n - 1], sid, vid) && ovs[n - 1].min_words is Some {
        ovs[n - 1].min_words
    } else {
        last_min_words(ovs, sid, vid, (n - 1) as nat)
    }
}

/// The word maximum set by the last of the first `n` overrides for the
/// variation that sets one.
pub open spec fn last_max_words(ovs: Seq<OverrideView>, sid: Seq<char>, vid: Seq<char>, n: nat) -> Option<u32>
    decreases n,
{
    if n == 0 {
        None
    } else if overrides_variation(ovs[n - 1], sid, vid) && ovs[n - 1].max_words is Some {
        ovs[n - 1].max_words
    } else {
        last_max_words(ovs, sid, vid, (n - 1) as nat)
    }
}

/// The additional checks set by the last of the first `n` overrides for the
/// variation that sets them.
pub open spec fn last_additional_checks(
    ovs: Seq<OverrideView>,
    sid: Seq<char>,
    vid: Seq<char>,
    n: nat,
) -> Option<Seq<Seq<char>>>
    decreases n,
{
    if n == 0 {
        None
    } else if overrides_variation(ovs[n - 1], sid, vid) && ovs[n - 1].additional_checks is Some {
        ovs[n - 1].additional_checks
    } else {
        last_additional_checks(ovs, sid, vid, (n - 1) as nat)
    }
}

/// The rubric that scores variation `vid` of scenario `sid` under the
/// overrides: each bound the last override sets replaces the variation's own,
/// and the additional checks the last override sets follow the variation's
/// checks. The expected keywords are the variation's.
pub open spec fn effective_rubric(ovs: Seq<OverrideView>, sid: Seq<char>, vid: Seq<char>, base: RubricView) -> RubricView {
    let n = ovs.len();
    RubricView {
        expected_keywords: base.expected_keywords,
        min_words: match last_min_words(ovs, sid, vid, n) {
            Some(w) => Some(w),
            None => base.min_words,
        },
        max_words: match last_max_words(ovs, sid, vid, n) {
            Some(w) => Some(w),
            None => base.max_words,
        },
        checks: match last_additional_checks(ovs, sid, vid, n) {
            Some(c) => base.checks + c,
            None => base.checks,
        },
    }
}

/// Why a profile could not be loaded.
pub enum ConfigError {
    /// No built-in profile has this id.
    UnknownAgent { agent_id: String },
}

/// The binary chosen for a run: the command-line override, else the profile's
/// binary, else none (auto-detection).
pub open spec fn chosen_bin(bin_override: Option<String>, profile_bin: Option<String>) -> Option<Seq<char>> {
    match bin_override {
        Some(b) => Some(b@),
        None => match profile_bin {
            Some(b) => Some(b@),
            None => None,
        },
    }
}

fn copy_string(s: &String) -> (r: String)
    ensures
        r == *s,
{
    s.clone()
}

fn copy_opt_string(s: &Option<String>) -> (r: Option<String>)
    ensures
        r == *s,
{
    match s {
        Some(x) => Some(x.clone()),
        None => None,
    }
}

fn copy_strings(v: &Vec<String>) -> (r: Vec<String>)
    ensures
        r@ == v@,
{
    let mut r: Vec<String> = Vec::new();
    let mut i: usize = 0;
    while i < v.len()
        invariant
            i <= v@.len(),
            r@ == v@.take(i as int),
        decreases v@.len() - i,
    {
        r.push(v[i].clone());
        assert(v@.take(i + 1) == v@.take(i as int).push(v@[i as int]));
        i = i + 1;
    }
    assert(v@.take(v@.len() as int) == v@);
    r
}

fn copy_pairs(v: &Vec<(String, String)>) -> (r: Vec<(String, String)>)
    ensures
        r@ == v@,
{
    let mut r: Vec<(String, String)> = Vec::new();
    let mut i: usize = 0;
    while i < v.len()
        invariant
            i <= v@.len(),
            r@ == v@.take(i as int),
        decreases v@.len() - i,
    {
        let p = (v[i].0.clone(), v[i].1.clone());
        r.push(p);
        assert(v@.take(i + 1) == v@.take(i as int).push(v@[i as int]));
        i = i + 1;
    }
    assert(v@.take(v@.len() as int) == v@);
    r
}

fn copy_overrides(v: &Vec<VariationOverride>) -> (r: Vec<VariationOverride>)
    ensures
        overrides_view(r@) == overrides_view(v@),
{
    let mut r: Vec<VariationOverride> = Vec::new();
    let mut i: usize = 0;
    while i < v.len()
        invariant
            i <= v@.len(),
            overrides_view(r@) == overrides_view(v@.take(i as int)),
        decreases v@.len() - i,
    {
        let o = &v[i];
        let c = VariationOverride {
            scenario_id: copy_string(&o.scenario_id),
            variation_id: copy_string(&o.variation_id),
            min_words: o.min_words,
            max_words: o.max_words,
            additional_checks: match &o.additional_checks {
                Some(a) => Some(copy_strings(a)),
                None => None,
            },
        };
        assert(c@ == o@);
        let ghost before = r@;
        r.push(c);
        assert(overrides_view(r@) =~= overrides_view(before).push(c@));
        assert(overrides_view(v@.take(i + 1)) =~= overrides_view(v@.take(i as int)).push(v@[i as int]@));
        i = i + 1;
    }
    assert(v@.take(v@.len() as int) == v@);
    r
}

/// Two profiles hold the same settings.
pub open spec fn same_profile(a: EvalConfig, b: EvalConfig) -> bool {
    &&& a.agent == b.agent
    &&& a.model == b.model
    &&& a.subprocess.bin == b.subprocess.bin
    &&& a.subprocess.args_prefix@ == b.subprocess.args_prefix@
    &&& a.subprocess.env@ == b.subprocess.env@
    &&& a.subprocess.response_strip_prefix == b.subprocess.response_strip_prefix
    &&& a.execution == b.execution
    &&& overrides_view(a.variation_overrides@) == overrides_view(b.variation_overrides@)
}

impl EvalConfig {
    /// The binary to run: `bin_override` takes precedence over the profile's
    /// `subprocess.bin`; `None` when neither names one.
    pub fn resolve_bin(&self, bin_override: Option<&String>) -> (r: Option<String>)
        ensures
            r matches Some(b) ==> Some(b@) == chosen_bin(
                match bin_override {
                    Some(o) => Some(*o),
                    None => None,
                },
                self.subprocess.bin,
            ),
            r is None <==> bin_override is None && self.subprocess.bin is None,
    {
        match bin_override {
            Some(b) => Some(b.clone()),
            None => match &self.subprocess.bin {
                Some(b) => Some(b.clone()),
                None => None,
            },
        }
    }

    /// The rubric that scores `variation` of the scenario `scenario_id` under
    /// this profile's overrides (see `effective_rubric`).
    pub fn rubric_for(&self, scenario_id: &str, variation: &crate::scenario::EvalVariation) -> (r: VariationRubric)
        ensures
            r@ == effective_rubric(
                overrides_view(self.variation_overrides@),
                scenario_id@,
                variation.id@,
                variation.rubric@,
            ),
    {
        let ghost ovs = overrides_view(self.variation_overrides@);
        let ghost vid = variation.id@;
        let mut min_words: Option<u32> = None;
        let mut max_words: Option<u32> = None;
        let mut extra: Option<&Vec<String>> = None;
        let mut i: usize = 0;
        while i < self.variation_overrides.len()
            invariant
                i <= self.variation_overrides@.len(),
                ovs == overrides_view(self.variation_overrides@),
                vid == variation.id@,
                min_words == last_min_words(ovs, scenario_id@, vid, i as nat),
                max_words == last_max_words(ovs, scenario_id@, vid, i as nat),
                match extra {
                    Some(c) => last_additional_checks(ovs, scenario_id@, vid, i as nat) == Some(
                        texts(c@),
                    ),
                    None => last_additional_checks(ovs, scenario_id@, vid, i as nat) is None,
                },
            decreases self.variation_overrides@.len() - i,
        {
            let o = &self.variation_overrides[i];
            assert(ovs[i as int] == o@);
            if same_text(o.scenario_id.as_str(), scenario_id) && same_text(
                o.variation_id.as_str(),
                variation.id.as_str(),
            ) {
                if o.min_words.is_some() {
                    min_words = o.min_words;
                }
                if o.max_words.is_some() {
                    max_words = o.max_words;
                }
                match &o.additional_checks {
                    Some(c) => {
                        extra = Some(c);
                    },
                    None => {},
                }
            }
            i = i + 1;
        }
        let mut checks = copy_strings(&variation.rubric.checks);
        match extra {
            Some(c) => {
                let mut k: usize = 0;
                let ghost start = checks@;
                while k < c.len()
                    invariant
                        k <= c@.len(),
                        checks@ == start + c@.take(k as int),
                    decreases c@.len() - k,
                {
                    checks.push(c[k].clone());
                    assert(c@.take(k + 1) == c@.take(k as int).push(c@[k as int]));
                    k = k + 1;
                }
                assert(c@.take(c@.len() as int) == c@);
                assert(texts(start + c@) =~= texts(start) + texts(c@));
            },
            None => {},
        }
        VariationRubric {
            expected_keywords: copy_strings(&variation.rubric.expected_keywords),
            min_words: match min_words {
                Some(w) => Some(w),
                None => variation.rubric.min_words,
            },
            max_words: match max_words {
                Some(w) => Some(w),
                None => variation.rubric.max_words,
            },
            checks,
        }
    }

    /// An equal copy of the profile.
    pub fn duplicate(&self) -> (r: EvalConfig)
        ensures
            same_profile(r, *self),
    {
        let r = EvalConfig {
            agent: AgentInfo {
                id: copy_string(&self.agent.id),
                name: copy_string(&self.agent.name),
                mode: self.agent.mode,
            },
            model: ModelInfo {
                provider: copy_string(&self.model.provider),
                name: copy_string(&self.model.name),
            },
            subprocess: SubprocessConfig {
                bin: copy_opt_string(&self.subprocess.bin),
                args_prefix: copy_strings(&self.subprocess.args_prefix),
                env: copy_pairs(&self.subprocess.env),
                response_strip_prefix: copy_opt_string(&self.subprocess.response_strip_prefix),
            },
            execution: ExecutionConfig {
                trials: self.execution.trials,
                retries: self.execution.retries,
                timeout_secs: self.execution.timeout_secs,
                delay_between_variations_ms: self.execution.delay_between_variations_ms,
                rate_limit_backoff_secs: self.execution.rate_limit_backoff_secs,
            },
            variation_overrides: copy_overrides(&self.variation_overrides),
        };
        r
    }
}

/// A profile as declared on top of the baseline: every field it leaves `None`
/// is taken from the baseline; its environment variables and rubric overrides
/// are added to the baseline's, a later entry winning over an earlier one.
pub struct ProfileOverlay {
    pub agent_id: String,
    pub agent_name: Option<String>,
    pub mode: Option<AgentMode>,
    pub provider: Option<String>,
    pub model_name: Option<String>,
    pub bin: Option<String>,
    /// Replaces the baseline's arguments as a whole when set.
    pub args_prefix: Option<Vec<String>>,
    pub env: Vec<(String, String)>,
    pub response_strip_prefix: Option<String>,
    pub trials: Option<u32>,
    pub retries: Option<u32>,
    pub timeout_secs: Option<u64>,
    pub delay_between_variations_ms: Option<u64>,
    pub rate_limit_backoff_secs: Option<u64>,
    pub variation_overrides: Vec<VariationOverride>,
}

/// The overlay's value where it sets one, else the baseline's.
pub open spec fn pick<T>(overlay: Option<T>, base: T) -> T {
    match overlay {
        Some(v) => v,
        None => base,
    }
}

/// `r` is the overlay `ov` merged on top of the baseline `base`: the overlay's
/// id; each field the overlay sets, else the baseline's; the argument list
/// replaced as a whole; the environment and the rubric overrides of both, the
/// baseline's first.
pub open spec fn is_merge(base: EvalConfig, ov: ProfileOverlay, r: EvalConfig) -> bool {
    &&& r.agent.id == ov.agent_id
    &&& r.agent.name == pick(ov.agent_name, base.agent.name)
    &&& r.agent.mode == pick(ov.mode, base.agent.mode)
    &&& r.model.provider == pick(ov.provider, base.model.provider)
    &&& r.model.name == pick(ov.model_name, base.model.name)
    &&& r.subprocess.bin == (if ov.bin is Some {
        ov.bin
    } else {
        base.subprocess.bin
    })
    &&& r.subprocess.args_prefix@ == match ov.args_prefix {
        Some(a) => a@,
        None => base.subprocess.args_prefix@,
    }
    &&& r.subprocess.env@ == base.subprocess.env@ + ov.env@
    &&& r.subprocess.response_strip_prefix == (if ov.response_strip_prefix is Some {
        ov.response_strip_prefix
    } else {
        base.subprocess.response_strip_prefix
    })
    &&& r.execution.trials == pick(ov.trials, base.execution.trials)
    &&& r.execution.retries == pick(ov.retries, base.execution.retries)
    &&& r.execution.timeout_secs == pick(ov.timeout_secs, base.execution.timeout_secs)
    &&& r.execution.delay_between_variations_ms == pick(
        ov.delay_between_variations_ms,
        base.execution.delay_between_variations_ms,
    )
    &&& r.execution.rate_limit_backoff_secs == pick(
        ov.rate_limit_backoff_secs,
        base.execution.rate_limit_backoff_secs,
    )
    &&& overrides_view(r.variation_overrides@) == overrides_view(base.variation_overrides@)
        + overrides_view(ov.variation_overrides@)
}

fn pick_string(overlay: &Option<String>, base: &String) -> (r: String)
    ensures
        r == pick(*overlay, *base),
{
    match overlay {
        Some(v) => copy_string(v),
        None => copy_string(base),
    }
}

fn pick_opt_string(overlay: &Option<String>, base: &Option<String>) -> (r: Option<String>)
    ensures
        r == (if overlay is Some {
            *overlay
        } else {
            *base
        }),
{
    if overlay.is_some() {
        copy_opt_string(overlay)
    } else {
        copy_opt_string(base)
    }
}

fn pick_u32(overlay: Option<u32>, base: u32) -> (r: u32)
    ensures
        r == pick(overlay, base),
{
    match overlay {
        Some(v) => v,
        None => base,
    }
}

fn pick_u64(overlay: Option<u64>, base: u64) -> (r: u64)
    ensures
        r == pick(overlay, base),
{
    match overlay {
        Some(v) => v,
        None => base,
    }
}

/// The concatenation of two lists of environment pairs.
fn concat_pairs(a: &Vec<(String, String)>, b: &Vec<(String, String)>) -> (r: Vec<(String, String)>)
    ensures
        r@ == a@ + b@,
{
    let mut r = copy_pairs(a);
    let tail = copy_pairs(b);
    let mut i: usize = 0;
    while i < tail.len()
        invariant
            i <= tail@.len(),
            tail@ == b@,
            r@ == a@ + b@.take(i as int),
        decreases tail@.len() - i,
    {
        let p = (tail[i].0.clone(), tail[i].1.clone());
        r.push(p);
        assert(b@.take(i + 1) == b@.take(i as int).push(b@[i as int]));
        assert(a@ + b@.take(i + 1) =~= (a@ + b@.take(i as int)).push(b@[i as int]));
        i = i + 1;
    }
    assert(b@.take(b@.len() as int) == b@);
    r
}

/// The concatenation of two lists of overrides.
fn concat_overrides(a: &Vec<VariationOverride>, b: &Vec<VariationOverride>) -> (r: Vec<VariationOverride>)
    ensures
        overrides_view(r@) == overrides_view(a@) + overrides_view(b@),
{
    let mut r = copy_overrides(a);
    let mut tail = copy_overrides(b);
    let ghost ra = overrides_view(r@);
    let ghost tb = overrides_view(tail@);
    r.append(&mut tail);
    assert(overrides_view(r@) =~= ra + tb);
    r
}

/// Merges the overlay `ov` on top of the baseline `base` (see `is_merge`).
pub fn merge_profile(base: &EvalConfig, ov: &ProfileOverlay) -> (r: EvalConfig)
    ensures
        is_merge(*base, *ov, r),
{
    EvalConfig {
        agent: AgentInfo {
            id: copy_string(&ov.agent_id),
            name: pick_string(&ov.agent_name, &base.agent.name),
            mode: match ov.mode {
                Some(m) => m,
                None => base.agent.mode,
            },
        },
        model: ModelInfo {
            provider: pick_string(&ov.provider, &base.model.provider),
            name: pick_string(&ov.model_name, &base.model.name),
        },
        subprocess: SubprocessConfig {
            bin: pick_opt_string(&ov.bin, &base.subprocess.bin),
            args_prefix: match &ov.args_prefix {
                Some(a) => copy_strings(a),
                None => copy_strings(&base.subprocess.args_prefix),
            },
            env: concat_pairs(&base.subprocess.env, &ov.env),
            response_strip_prefix: pick_opt_string(
                &ov.response_strip_prefix,
                &base.subprocess.response_strip_prefix,
            ),
        },
        execution: ExecutionConfig {
            trials: pick_u32(ov.trials, base.execution.trials),
            retries: pick_u32(ov.retries, base.execution.retries),
            timeout_secs: pick_u64(ov.timeout_secs, base.execution.timeout_secs),
            delay_between_variations_ms: pick_u64(
                ov.delay_between_variations_ms,
                base.execution.delay_between_variations_ms,
            ),
            rate_limit_backoff_secs: pick_u64(
                ov.rate_limit_backoff_secs,
                base.execution.rate_limit_backoff_secs,
            ),
        },
        variation_overrides: concat_overrides(&base.variation_overrides, &ov.variation_overrides),
    }
}

/// The built-in agent profiles: the baseline, and the profiles declared on
/// top of it.
pub struct AgentCatalog {
    pub baseline: EvalConfig,
    pub profiles: Vec<ProfileOverlay>,
}

impl AgentCatalog {
    /// The profile named `agent_id`: the first one in the catalog with that id,
    /// merged on top of the baseline; `UnknownAgent` when there is none.
    pub fn load_builtin(&self, agent_id: &str) -> (r: Result<EvalConfig, ConfigError>)
        ensures
            match r {
                Ok(c) => exists|k: int|
                    0 <= k < self.profiles@.len() && is_merge(self.baseline, self.profiles@[k], c)
                        && c.agent.id@ == agent_id@ && forall|j: int|
                        0 <= j < k ==> (#[trigger] self.profiles@[j]).agent_id@ != agent_id@,
                Err(ConfigError::UnknownAgent { agent_id: a }) => a@ == agent_id@ && forall|k: int|
                    0 <= k < self.profiles@.len() ==> (#[trigger] self.profiles@[k]).agent_id@
                        != agent_id@,
            },
    {
        let mut k: usize = 0;
        while k < self.profiles.len()
            invariant
                k <= self.profiles@.len(),
                forall|j: int| 0 <= j < k ==> (#[trigger] self.profiles@[j]).agent_id@ != agent_id@,
            decreases self.profiles@.len() - k,
        {
            if same_text(self.profiles[k].agent_id.as_str(), agent_id) {
                return Ok(merge_profile(&self.baseline, &self.profiles[k]));
            }
            k = k + 1;
        }
        let mut a = String::new();
        crate::text::push_str(&mut a, agent_id);
        Err(ConfigError::UnknownAgent { agent_id: a })
    }
}

} // verus!
