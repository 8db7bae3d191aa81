//! One agent invocation: the command to launch, and the reading of its outcome.
//!
//! The process itself is launched and awaited by the caller; this module decides
//! its arguments, its environment and its working-directory name, and turns
//! what came back into the response text and the pipeline error.

use vstd::prelude::*;
use crate::prompt::{build_prompt, prompt_text};
use crate::config::EvalConfig;
use crate::scenario::{EvalScenario, EvalVariation};
use crate::text::{blank, decimal, has_prefix, is_blank, push_decimal, push_str, same_text, starts_with, trim, trimmed};

verus! {

// ───────────────────────────── environment ─────────────────────────────

/// One change to the environment that the agent inherits.
pub enum EnvOp {
    /// Set `key` to `value`.
    Assign { key: String, value: String },
    /// Remove `key`, so that the agent does not inherit it.
    Unset { key: String },
}

/// The mathematical content of an [`EnvOp`].
pub enum EnvOpView {
    Assign { key: Seq<char>, value: Seq<char> },
    Unset { key: Seq<char> },
}

impl View for EnvOp {
    type V = EnvOpView;

    open spec fn view(&self) -> EnvOpView {
        match self {
            EnvOp::Assign { key, value } => EnvOpView::Assign { key: key@, value: value@ },
            EnvOp::Unset { key } => EnvOpView::Unset { key: key@ },
        }
    }
}

/// The variables of an environment listing (a later entry overrides an earlier
/// one of the same name).
pub open spec fn env_map(pairs: Seq<(String, String)>) -> Map<Seq<char>, Seq<char>>
    decreases pairs.len(),
{
    if pairs.len() == 0 {
        Map::empty()
    } else {
        env_map(pairs.drop_last()).insert(pairs.last().0@, pairs.last().1@)
    }
}

/// The environment that results from applying `ops` in order to `env` (as a
/// `std::process::Command` applies its `env` and `env_remove` calls to the
/// inherited environment: the last call for a name wins).
pub open spec fn env_after(env: Map<Seq<char>, Seq<char>>, ops: Seq<EnvOpView>) -> Map<
    Seq<char>,
    Seq<char>,
>
    decreases ops.len(),
{
    if ops.len() == 0 {
        env
    } else {
        let e = env_after(env, ops.drop_last());
        match ops.last() {
            EnvOpView::Assign { key, value } => e.insert(key, value),
            EnvOpView::Unset { key } => e.remove(key),
        }
    }
}

/// A variable set by CI runners: `CI`, or a name starting with `GITHUB_` or `RUNNER_`.
pub open spec fn is_ci_variable(key: Seq<char>) -> bool {
    key == "CI"@ || has_prefix(key, "GITHUB_"@) || has_prefix(key, "RUNNER_"@)
}

/// The credential variables forwarded from the caller's environment, in order.
pub open spec fn credential_keys() -> Seq<Seq<char>> {
    seq!["ANTHROPIC_API_KEY"@, "GESTURA_ANTHROPIC_API_KEY"@, "OPENAI_API_KEY"@, "AUGMENT_SESSION_AUTH"@]
}

/// The variable that tells Gestura to run without tools.
pub open spec fn tools_flag_key() -> Seq<char> {
    "GESTURA_TOOLS_ENABLED"@
}

/// `Set` operations for the profile's environment, in order.
pub open spec fn profile_sets(env: Seq<(String, String)>) -> Seq<EnvOpView> {
    env.map_values(|p: (String, String)| EnvOpView::Assign { key: p.0@, value: p.1@ })
}

/// `Set` operations forwarding the credentials present in the caller's environment.
pub open spec fn credential_sets(parent: Map<Seq<char>, Seq<char>>, n: nat) -> Seq<EnvOpView>
    decreases n,
{
    if n == 0 {
        Seq::empty()
    } else {
        let earlier = credential_sets(parent, (n - 1) as nat);
        let k = credential_keys()[n - 1];
        if parent.contains_key(k) {
            earlier.push(EnvOpView::Assign { key: k, value: parent[k] })
        } else {
            earlier
        }
    }
}

/// `Remove` operations for the CI variables among the first `n` entries of the
/// caller's environment.
pub open spec fn ci_removals(parent: Seq<(String, String)>, n: nat) -> Seq<EnvOpView>
    decreases n,
{
    if n == 0 {
        Seq::empty()
    } else {
        let earlier = ci_removals(parent, (n - 1) as nat);
        if is_ci_variable(parent[n - 1].0@) {
            earlier.push(EnvOpView::Unset { key: parent[n - 1].0@ })
        } else {
            earlier
        }
    }
}

/// The environment changes for one invocation: the profile's variables, then
/// the caller's credentials, then the removal of the caller's CI variables,
/// then, when the scenario disables tools, `GESTURA_TOOLS_ENABLED=false`.
pub open spec fn invocation_env(
    profile_env: Seq<(String, String)>,
    parent: Seq<(String, String)>,
    tools_enabled: bool,
) -> Seq<EnvOpView> {
    profile_sets(profile_env) + credential_sets(env_map(parent), 4) + ci_removals(
        parent,
        parent.len(),
    ) + if tools_enabled {
        Seq::empty()
    } else {
        seq![EnvOpView::Assign { key: tools_flag_key(), value: "false"@ }]
    }
}

/// The views of a list of operations.
pub open spec fn ops_view(ops: Seq<EnvOp>) -> Seq<EnvOpView> {
    ops.map_values(|o: EnvOp| o@)
}

fn copy_text(s: &String) -> (r: String)
    ensures
        r@ == s@,
{
    s.clone()
}

/// The caller's value of `key`, if it has one (`std::env::var` on a listing).
pub fn lookup_env(parent: &Vec<(String, String)>, key: &str) -> (r: Option<String>)
    ensures
        r is Some <==> env_map(parent@).contains_key(key@),
        r matches Some(v) ==> v@ == env_map(parent@)[key@],
{
    let mut found: Option<String> = None;
    let mut i: usize = 0;
    while i < parent.len()
        invariant
            i <= parent@.len(),
            found is Some <==> env_map(parent@.take(i as int)).contains_key(key@),
            found matches Some(v) ==> v@ == env_map(parent@.take(i as int))[key@],
        decreases parent@.len() - i,
    {
        proof {
            assert(parent@.take(i + 1).drop_last() == parent@.take(i as int));
            assert(parent@.take(i + 1).last() == parent@[i as int]);
        }
        if same_text(parent[i].0.as_str(), key) {
            found = Some(copy_text(&parent[i].1));
        }
        i = i + 1;
    }
    assert(parent@.take(parent@.len() as int) == parent@);
    found
}

/// Whether `key` is a CI runner variable (see `is_ci_variable`).
pub fn is_ci_var(key: &str) -> (b: bool)
    ensures
        b == is_ci_variable(key@),
{
    same_text(key, "CI") || starts_with(key, "GITHUB_") || starts_with(key, "RUNNER_")
}

/// The environment changes for one invocation (see `invocation_env`).
pub fn plan_env(
    profile_env: &Vec<(String, String)>,
    parent: &Vec<(String, String)>,
    tools_enabled: bool,
) -> (ops: Vec<EnvOp>)
    ensures
        ops_view(ops@) == invocation_env(profile_env@, parent@, tools_enabled),
{
    let mut ops: Vec<EnvOp> = Vec::new();
    let mut i: usize = 0;
    while i < profile_env.len()
        invariant
            i <= profile_env@.len(),
            ops_view(ops@) == profile_sets(profile_env@.take(i as int)),
        decreases profile_env@.len() - i,
    {
        let ghost before = ops@;
        ops.push(
            EnvOp::Assign { key: copy_text(&profile_env[i].0), value: copy_text(&profile_env[i].1) },
        );
        assert(ops@ == before.push(ops@.last()));
        assert(ops_view(ops@) =~= ops_view(before).push(ops@.last()@));
        assert(profile_sets(profile_env@.take(i + 1)) =~= profile_sets(
            profile_env@.take(i as int),
        ).push(ops@.last()@));
        i = i + 1;
    }
    assert(profile_env@.take(profile_env@.len() as int) == profile_env@);
    let ghost base = ops_view(ops@);
    let keys: [&str; 4] = [
        "ANTHROPIC_API_KEY",
        "GESTURA_ANTHROPIC_API_KEY",
        "OPENAI_API_KEY",
        "AUGMENT_SESSION_AUTH",
    ];
    let mut j: usize = 0;
    while j < 4
        invariant
            j <= 4,
            keys@ == seq![
                "ANTHROPIC_API_KEY",
                "GESTURA_ANTHROPIC_API_KEY",
                "OPENAI_API_KEY",
                "AUGMENT_SESSION_AUTH",
            ],
            ops_view(ops@) == base + credential_sets(env_map(parent@), j as nat),
        decreases 4 - j,
    {
        let key = keys[j];
        assert(key@ == credential_keys()[j as int]);
        let ghost before = ops@;
        match lookup_env(parent, key) {
            Some(v) => {
                let mut k = String::new();
                push_str(&mut k, key);
                ops.push(EnvOp::Assign { key: k, value: v });
                assert(ops_view(ops@) =~= ops_view(before).push(ops@.last()@));
            },
            None => {},
        }
        j = j + 1;
    }
    let ghost base2 = ops_view(ops@);
    let mut i: usize = 0;
    while i < parent.len()
        invariant
            i <= parent@.len(),
            ops_view(ops@) == base2 + ci_removals(parent@, i as nat),
        decreases parent@.len() - i,
    {
        if is_ci_var(parent[i].0.as_str()) {
            let ghost before = ops@;
            ops.push(EnvOp::Unset { key: copy_text(&parent[i].0) });
            assert(ops_view(ops@) =~= ops_view(before).push(ops@.last()@));
        }
        i = i + 1;
    }
    if !tools_enabled {
        let ghost before = ops@;
        let mut k = String::new();
        push_str(&mut k, "GESTURA_TOOLS_ENABLED");
        let mut v = String::new();
        push_str(&mut v, "false");
        ops.push(EnvOp::Assign { key: k, value: v });
        assert(ops_view(ops@) =~= ops_view(before).push(ops@.last()@));
    }
    assert(ops_view(ops@) =~= invocation_env(profile_env@, parent@, tools_enabled));
    ops
}


/// Some entry of the listing has the name `k`.
pub open spec fn lists_name(pairs: Seq<(String, String)>, k: Seq<char>) -> bool {
    exists|i: int| 0 <= i < pairs.len() && (#[trigger] pairs[i]).0@ == k
}

/// The value the agent sees for `k`: `false` for the tools flag when tools are
/// disabled; nothing for a CI variable of the caller; the caller's value of a
/// forwarded credential; else the profile's value; else the inherited value.
pub open spec fn agent_env_value(
    profile_env: Seq<(String, String)>,
    parent: Seq<(String, String)>,
    tools_enabled: bool,
    k: Seq<char>,
) -> Option<Seq<char>> {
    let p = env_map(parent);
    let c = env_map(profile_env);
    if !tools_enabled && k == tools_flag_key() {
        Some("false"@)
    } else if p.contains_key(k) && is_ci_variable(k) {
        None
    } else if credential_keys().contains(k) && p.contains_key(k) {
        Some(p[k])
    } else if c.contains_key(k) {
        Some(c[k])
    } else if p.contains_key(k) {
        Some(p[k])
    } else {
        None
    }
}

proof fn lemma_env_after_concat(m: Map<Seq<char>, Seq<char>>, a: Seq<EnvOpView>, b: Seq<EnvOpView>)
    ensures
        env_after(m, a + b) == env_after(env_after(m, a), b),
    decreases b.len(),
{
    if b.len() == 0 {
        assert(a + b =~= a);
    } else {
        assert((a + b).drop_last() =~= a + b.drop_last());
        assert((a + b).last() == b.last());
        lemma_env_after_concat(m, a, b.drop_last());
    }
}

proof fn lemma_env_map_names(pairs: Seq<(String, String)>, k: Seq<char>)
    ensures
        env_map(pairs).contains_key(k) <==> lists_name(pairs, k),
    decreases pairs.len(),
{
    if pairs.len() > 0 {
        let d = pairs.drop_last();
        lemma_env_map_names(d, k);
        if lists_name(d, k) {
            let i = choose|i: int| 0 <= i < d.len() && (#[trigger] d[i]).0@ == k;
            assert(pairs[i] == d[i]);
        }
        if lists_name(pairs, k) {
            let i = choose|i: int| 0 <= i < pairs.len() && (#[trigger] pairs[i]).0@ == k;
            if i < d.len() {
                assert(pairs[i] == d[i]);
            }
        }
    }
}

proof fn lemma_profile_sets_effect(m: Map<Seq<char>, Seq<char>>, env: Seq<(String, String)>, k: Seq<char>)
    ensures
        env_after(m, profile_sets(env)).contains_key(k) <==> (env_map(env).contains_key(k)
            || m.contains_key(k)),
        env_after(m, profile_sets(env)).contains_key(k) ==> env_after(m, profile_sets(env))[k] == if env_map(
            env,
        ).contains_key(k) {
            env_map(env)[k]
        } else {
            m[k]
        },
    decreases env.len(),
{
    if env.len() > 0 {
        let d = env.drop_last();
        assert(profile_sets(env).drop_last() =~= profile_sets(d));
        lemma_profile_sets_effect(m, d, k);
    }
}

proof fn lemma_credential_sets_effect(m: Map<Seq<char>, Seq<char>>, par: Map<Seq<char>, Seq<char>>, n: nat, k: Seq<char>)
    requires
        n <= 4,
    ensures
        ({
            let r = env_after(m, credential_sets(par, n));
            let hit = credential_keys().take(n as int).contains(k) && par.contains_key(k);
            &&& r.contains_key(k) <==> (hit || m.contains_key(k))
            &&& r.contains_key(k) ==> r[k] == if hit {
                par[k]
            } else {
                m[k]
            }
        }),
    decreases n,
{
    if n > 0 {
        lemma_credential_sets_effect(m, par, (n - 1) as nat, k);
        let ks = credential_keys();
        let t = ks.take(n as int);
        let t1 = ks.take(n - 1);
        if t1.contains(k) {
            let i = choose|i: int| 0 <= i < t1.len() && t1[i] == k;
            assert(t[i] == t1[i]);
        }
        if ks[n - 1] == k {
            assert(t[n - 1] == k);
        }
        if t.contains(k) {
            let i = choose|i: int| 0 <= i < t.len() && t[i] == k;
            if i < n - 1 {
                assert(t1[i] == k);
            }
        }
        if par.contains_key(ks[n - 1]) {
            assert(credential_sets(par, n).drop_last() == credential_sets(par, (n - 1) as nat));
        }
    }
}

proof fn lemma_ci_removals_effect(m: Map<Seq<char>, Seq<char>>, parent: Seq<(String, String)>, n: nat, k: Seq<char>)
    requires
        n <= parent.len(),
    ensures
        ({
            let r = env_after(m, ci_removals(parent, n));
            &&& r.contains_key(k) <==> (m.contains_key(k) && !(is_ci_variable(k) && lists_name(
                parent.take(n as int),
                k,
            )))
            &&& r.contains_key(k) ==> r[k] == m[k]
        }),
    decreases n,
{
    if n > 0 {
        lemma_ci_removals_effect(m, parent, (n - 1) as nat, k);
        let t = parent.take(n as int);
        let t1 = parent.take(n - 1);
        assert(t1 =~= t.drop_last());
        if is_ci_variable(parent[n - 1].0@) {
            assert(ci_removals(parent, n).drop_last() == ci_removals(parent, (n - 1) as nat));
        }
        if lists_name(t1, k) {
            let i = choose|i: int| 0 <= i < t1.len() && (#[trigger] t1[i]).0@ == k;
            assert(t[i] == t1[i]);
        }
        if lists_name(t, k) && !lists_name(t1, k) {
            let i = choose|i: int| 0 <= i < t.len() && (#[trigger] t[i]).0@ == k;
            if i < t1.len() {
                assert(t[i] == t1[i]);
            }
            assert(i == n - 1);
        }
        if parent[n - 1].0@ == k {
            assert(t[n - 1] == parent[n - 1]);
        }
    }
}

proof fn lemma_literal_facts()
    ensures
        !is_ci_variable(tools_flag_key()),
        !credential_keys().contains(tools_flag_key()),
        forall|k: Seq<char>| credential_keys().contains(k) ==> !is_ci_variable(k),
{
    reveal_strlit("GESTURA_TOOLS_ENABLED");
    reveal_strlit("CI");
    reveal_strlit("GITHUB_");
    reveal_strlit("RUNNER_");
    reveal_strlit("ANTHROPIC_API_KEY");
    reveal_strlit("GESTURA_ANTHROPIC_API_KEY");
    reveal_strlit("OPENAI_API_KEY");
    reveal_strlit("AUGMENT_SESSION_AUTH");
    let f = tools_flag_key();
    assert(f.subrange(0, 7)[1] != "GITHUB_"@[1]);
    assert(f.subrange(0, 7)[0] != "RUNNER_"@[0]);
    assert(f != "CI"@);
    let ks = credential_keys();
    assert(ks[0] != f);
    assert(ks[1][8] != f[8]);
    assert(ks[2] != f);
    assert(ks[3] != f);
    assert forall|k: Seq<char>| ks.contains(k) implies !is_ci_variable(k) by {
        let i = choose|i: int| 0 <= i < ks.len() && ks[i] == k;
        if i == 1 {
            assert(k.subrange(0, 7)[1] != "GITHUB_"@[1]);
        } else {
            assert(k.subrange(0, 7)[0] != "GITHUB_"@[0]);
        }
        assert(k.subrange(0, 7)[0] != "RUNNER_"@[0]);
        assert(k != "CI"@);
    }
}

/// The environment the agent runs with, for every variable name: the caller's
/// CI variables (`CI`, `GITHUB_*`, `RUNNER_*`) are gone; the caller's
/// credentials reach the agent with the caller's values, over any profile
/// value; the profile's other variables are set; `GESTURA_TOOLS_ENABLED` is
/// `false` when the scenario disables tools; everything else is inherited.
pub proof fn law_agent_environment(
    profile_env: Seq<(String, String)>,
    parent: Seq<(String, String)>,
    tools_enabled: bool,
    k: Seq<char>,
)
    ensures
        ({
            let child = env_after(env_map(parent), invocation_env(profile_env, parent, tools_enabled));
            let expected = agent_env_value(profile_env, parent, tools_enabled, k);
            &&& child.contains_key(k) <==> expected is Some
            &&& expected matches Some(v) ==> child[k] == v
        }),
{
    let p = env_map(parent);
    let a = profile_sets(profile_env);
    let b = credential_sets(p, 4);
    let c = ci_removals(parent, parent.len());
    let d: Seq<EnvOpView> = if tools_enabled {
        Seq::empty()
    } else {
        seq![EnvOpView::Assign { key: tools_flag_key(), value: "false"@ }]
    };
    lemma_env_after_concat(p, a + b + c, d);
    lemma_env_after_concat(p, a + b, c);
    lemma_env_after_concat(p, a, b);
    let m1 = env_after(p, a);
    let m2 = env_after(m1, b);
    let m3 = env_after(m2, c);
    lemma_profile_sets_effect(p, profile_env, k);
    lemma_credential_sets_effect(m1, p, 4, k);
    lemma_ci_removals_effect(m2, parent, parent.len(), k);
    lemma_env_map_names(parent, k);
    lemma_literal_facts();
    assert(credential_keys().take(4) =~= credential_keys());
    assert(parent.take(parent.len() as int) =~= parent);
    assert(invocation_env(profile_env, parent, tools_enabled) == a + b + c + d);
    let child = env_after(p, a + b + c + d);
    assert(child == env_after(m3, d));
    if !tools_enabled {
        assert(d.drop_last() =~= Seq::<EnvOpView>::empty());
        assert(env_after(m3, d.drop_last()) == m3);
        assert(child == m3.insert(tools_flag_key(), "false"@));
    } else {
        assert(child == m3);
    }
}

/// The caller's credentials reach the agent: when the caller's environment
/// holds `ANTHROPIC_API_KEY`, `GESTURA_ANTHROPIC_API_KEY`, `OPENAI_API_KEY` or
/// `AUGMENT_SESSION_AUTH`, the agent sees the caller's value, whatever the
/// profile sets (a blank placeholder included) and whether or not tools are on.
pub proof fn law_credentials_forwarded(
    profile_env: Seq<(String, String)>,
    parent: Seq<(String, String)>,
    tools_enabled: bool,
    k: Seq<char>,
)
    requires
        k == "ANTHROPIC_API_KEY"@ || k == "GESTURA_ANTHROPIC_API_KEY"@ || k == "OPENAI_API_KEY"@
            || k == "AUGMENT_SESSION_AUTH"@,
        env_map(parent).contains_key(k),
    ensures
        ({
            let child = env_after(env_map(parent), invocation_env(profile_env, parent, tools_enabled));
            &&& child.contains_key(k)
            &&& child[k] == env_map(parent)[k]
        }),
{
    law_agent_environment(profile_env, parent, tools_enabled, k);
    lemma_literal_facts();
    let ks = credential_keys();
    if k == "ANTHROPIC_API_KEY"@ {
        assert(ks[0] == k);
    } else if k == "GESTURA_ANTHROPIC_API_KEY"@ {
        assert(ks[1] == k);
    } else if k == "OPENAI_API_KEY"@ {
        assert(ks[2] == k);
    } else {
        assert(ks[3] == k);
    }
    assert(ks.contains(k));
    assert(k != tools_flag_key());
}

/// The caller's CI markers never reach the agent, and with tools disabled the
/// agent sees `GESTURA_TOOLS_ENABLED=false`.
pub proof fn law_ci_stripped_and_tools_flag(
    profile_env: Seq<(String, String)>,
    parent: Seq<(String, String)>,
    tools_enabled: bool,
    k: Seq<char>,
)
    ensures
        ({
            let child = env_after(env_map(parent), invocation_env(profile_env, parent, tools_enabled));
            &&& (k == "CI"@ || has_prefix(k, "GITHUB_"@) || has_prefix(k, "RUNNER_"@))
                && env_map(parent).contains_key(k) && k != "GESTURA_TOOLS_ENABLED"@
                ==> !child.contains_key(k)
            &&& !tools_enabled ==> child.contains_key("GESTURA_TOOLS_ENABLED"@) && child["GESTURA_TOOLS_ENABLED"@]
                == "false"@
        }),
{
    law_agent_environment(profile_env, parent, tools_enabled, k);
    law_agent_environment(profile_env, parent, tools_enabled, "GESTURA_TOOLS_ENABLED"@);
}

// ───────────────────────────── command ─────────────────────────────

/// How to launch the agent for one variation: `program [args...]` with the
/// environment changes applied in order.
pub struct CommandPlan {
    /// The binary; `None` leaves the choice to auto-detection.
    pub program: Option<String>,
    /// The profile's argument prefix followed by the prompt.
    pub args: Vec<String>,
    /// Changes to the inherited environment, applied in order.
    pub env: Vec<EnvOp>,
}

/// The command for one variation: the profile's arguments then the prompt as
/// the final argument, and the environment of `invocation_env`.
pub fn plan_command(
    config: &EvalConfig,
    program: Option<String>,
    scenario: &EvalScenario,
    variation: &EvalVariation,
    parent_env: &Vec<(String, String)>,
) -> (c: CommandPlan)
    ensures
        c.program == program,
        c.args@.len() == config.subprocess.args_prefix@.len() + 1,
        forall|i: int|
            0 <= i < config.subprocess.args_prefix@.len() ==> (#[trigger] c.args@[i])@
                == config.subprocess.args_prefix@[i]@,
        c.args@.last()@ == prompt_text(variation.history@, variation.prompt@),
        ops_view(c.env@) == invocation_env(
            config.subprocess.env@,
            parent_env@,
            scenario.rubric.tools_enabled,
        ),
{
    let prefix = &config.subprocess.args_prefix;
    let mut args: Vec<String> = Vec::new();
    let mut i: usize = 0;
    while i < prefix.len()
        invariant
            i <= prefix@.len(),
            args@.len() == i,
            forall|j: int| 0 <= j < i ==> (#[trigger] args@[j])@ == prefix@[j]@,
        decreases prefix@.len() - i,
    {
        args.push(copy_text(&prefix[i]));
        i = i + 1;
    }
    args.push(build_prompt(variation));
    let env = plan_env(&config.subprocess.env, parent_env, scenario.rubric.tools_enabled);
    CommandPlan { program, args, env }
}

// ───────────────────────────── working directory ─────────────────────────────

/// A lower-case hex digit.
pub open spec fn is_lower_hex(c: char) -> bool {
    ('0' <= c && c <= '9') || ('a' <= c && c <= 'f')
}

/// The hyphenated lower-case text of a random (version 4, RFC 4122 variant)
/// UUID: 36 characters, hex digits in groups of 8-4-4-4-12 separated by `-`,
/// the version digit `4`, and the variant digit one of `8`, `9`, `a`, `b`.
pub open spec fn is_v4_uuid_text(s: Seq<char>) -> bool {
    &&& s.len() == 36
    &&& forall|i: int|
        0 <= i < 36 ==> if i == 8 || i == 13 || i == 18 || i == 23 {
            #[trigger] s[i] == '-'
        } else {
            is_lower_hex(s[i])
        }
    &&& s[14] == '4'
    &&& (s[19] == '8' || s[19] == '9' || s[19] == 'a' || s[19] == 'b')
}

/// `uuid::Uuid::new_v4`, formatted by its `Display` impl. Claimed: the text is
/// a hyphenated lower-case version-4 UUID (the crate masks the version and
/// variant bits of a random `u128` and formats it as 8-4-4-4-12 lower-case hex).
/// Which random value comes out is not stated; the crate panics when the
/// operating system cannot supply random bytes.
#[verifier::external_body]
fn new_v4_uuid_text() -> (r: String)
    ensures
        is_v4_uuid_text(r@),
{
    uuid::Uuid::new_v4().to_string()
}

/// The working-directory name for an invocation with identifier `id`.
pub fn workdir_name(id: &str) -> (r: String)
    ensures
        r@ == "agent-eval-"@ + id@,
{
    let mut r = String::new();
    push_str(&mut r, "agent-eval-");
    push_str(&mut r, id);
    r
}

/// A fresh working-directory name, `agent-eval-` followed by a random UUID, so
/// that each invocation starts in its own empty directory.
pub fn fresh_workdir_name() -> (r: String)
    ensures
        exists|u: Seq<char>| is_v4_uuid_text(u) && r@ == "agent-eval-"@ + u,
{
    let id = new_v4_uuid_text();
    workdir_name(id.as_str())
}

// ───────────────────────────── outcome ─────────────────────────────

/// The text of a byte string after `String::from_utf8_lossy` (invalid UTF-8
/// sequences replaced by U+FFFD).
pub uninterp spec fn utf8_lossy(bytes: Seq<u8>) -> Seq<char>;

/// `String::from_utf8_lossy`. Claimed: the result is `utf8_lossy` of the bytes,
/// a function of the bytes alone, and on valid UTF-8 it is exactly the text that
/// the bytes encode (std documents that valid input is returned unchanged). How
/// invalid sequences are replaced is not stated.
#[verifier::external_body]
fn decode_lossy(bytes: &[u8]) -> (r: String)
    ensures
        r@ == utf8_lossy(bytes@),
        vstd::utf8::valid_utf8(bytes@) ==> r@ == vstd::utf8::decode_utf8(bytes@),
{
    String::from_utf8_lossy(bytes).into_owned()
}

/// Why an invocation produced no usable answer.
#[derive(Debug, PartialEq, Eq)]
pub enum PipelineError {
    /// The agent did not run to an exit (it could not be launched, timed out,
    /// or could not be awaited); `message` says why.
    Failure { message: String },
    /// The agent exited with a failure status and wrote `text` (trimmed) on
    /// its standard error.
    Stderr { text: String },
    /// The agent exited with a failure status, wrote nothing on its standard
    /// error, but wrote something on its standard output.
    ExitStatus { status: String },
    /// The agent exited with a failure status and wrote nothing (beyond white
    /// space) on either stream.
    SilentExit { status: String },
}

/// The mathematical content of a [`PipelineError`].
pub enum PipelineErrorView {
    Failure { message: Seq<char> },
    Stderr { text: Seq<char> },
    ExitStatus { status: Seq<char> },
    SilentExit { status: Seq<char> },
}

impl View for PipelineError {
    type V = PipelineErrorView;

    open spec fn view(&self) -> PipelineErrorView {
        match self {
            PipelineError::Failure { message } => PipelineErrorView::Failure { message: message@ },
            PipelineError::Stderr { text } => PipelineErrorView::Stderr { text: text@ },
            PipelineError::ExitStatus { status } => PipelineErrorView::ExitStatus { status: status@ },
            PipelineError::SilentExit { status } => PipelineErrorView::SilentExit { status: status@ },
        }
    }
}

/// An optional pipeline error, by its view.
pub open spec fn opt_error(o: Option<PipelineError>) -> Option<PipelineErrorView> {
    match o {
        Some(e) => Some(e@),
        None => None,
    }
}

/// The text by which a pipeline error is reported: the reason, the standard
/// error, or `exit <status>` for an exit that wrote nothing on standard error.
pub open spec fn error_text(e: PipelineErrorView) -> Seq<char> {
    match e {
        PipelineErrorView::Failure { message } => message,
        PipelineErrorView::Stderr { text } => text,
        PipelineErrorView::ExitStatus { status } => "exit "@ + status,
        PipelineErrorView::SilentExit { status } => "exit "@ + status,
    }
}

impl PipelineError {
    /// The text by which the error is reported (see `error_text`).
    pub fn text(&self) -> (r: String)
        ensures
            r@ == error_text(self@),
    {
        match self {
            PipelineError::Failure { message } => copy_text(message),
            PipelineError::Stderr { text } => copy_text(text),
            PipelineError::ExitStatus { status } | PipelineError::SilentExit { status } => {
                let mut m = String::new();
                push_str(&mut m, "exit ");
                push_str(&mut m, status.as_str());
                m
            },
        }
    }
}

/// A failed run that printed nothing: the agent exited with a failure status
/// after writing nothing on standard error, and nothing on standard output.
pub open spec fn is_silent_failure_spec(pipeline_error: Option<PipelineErrorView>, stdout: Seq<char>) -> bool {
    &&& is_blank(stdout)
    &&& pipeline_error matches Some(PipelineErrorView::SilentExit { .. })
}

/// Whether the subprocess exited with a failure status without writing anything
/// on either stream (its error is a silent exit and its output is blank). Such a
/// run crashed before it could speak, and is safe to retry.
pub fn is_silent_transient_failure(pipeline_error: Option<&PipelineError>, stdout: &str) -> (b: bool)
    ensures
        b == is_silent_failure_spec(
            match pipeline_error {
                Some(e) => Some(e@),
                None => None,
            },
            stdout@,
        ),
{
    blank(stdout) && match pipeline_error {
        Some(PipelineError::SilentExit { .. }) => true,
        _ => false,
    }
}

/// How an invocation ended.
pub enum RunOutcome {
    /// The agent could not be launched.
    SpawnFailed { message: String },
    /// The agent exceeded the time limit and was killed.
    TimedOut { timeout_secs: u64 },
    /// The agent's exit status could not be read.
    WaitFailed { message: String },
    /// The agent exited; `status` is the exit status as text.
    Exited { success: bool, status: String, stdout: Vec<u8>, stderr: Vec<u8> },
}

/// The agent's answer: its trimmed output, with the configured label (if any)
/// removed from the front and the rest trimmed again.
pub open spec fn response_of(raw: Seq<char>, strip_prefix: Option<Seq<char>>) -> Seq<char> {
    match strip_prefix {
        Some(p) => trimmed(
            if has_prefix(raw, p) {
                raw.skip(p.len() as int)
            } else {
                raw
            },
        ),
        None => raw,
    }
}

/// The error text of a timed-out invocation.
pub open spec fn timeout_message(timeout_secs: nat) -> Seq<char> {
    "timeout after "@ + decimal(timeout_secs) + "s"@
}

/// The response and the pipeline error of an agent that exited, from its decoded
/// output: the cleaned-up output and, on a failure status, the trimmed standard
/// error, or else the status, marked silent when the output is blank too.
pub open spec fn exit_result(
    success: bool,
    status: Seq<char>,
    stdout: Seq<char>,
    stderr: Seq<char>,
    strip_prefix: Option<Seq<char>>,
) -> (Seq<char>, Option<PipelineErrorView>) {
    let raw = trimmed(stdout);
    let text = response_of(raw, strip_prefix);
    let err = trimmed(stderr);
    if success {
        (text, None)
    } else if err.len() > 0 {
        (text, Some(PipelineErrorView::Stderr { text: err }))
    } else if raw.len() > 0 {
        (text, Some(PipelineErrorView::ExitStatus { status }))
    } else {
        (text, Some(PipelineErrorView::SilentExit { status }))
    }
}

/// The response and the pipeline error of an invocation: empty with the reason
/// when it did not run to an exit; otherwise `exit_result` of the decoded streams.
pub open spec fn invocation_result(o: RunOutcome, strip_prefix: Option<Seq<char>>) -> (
    Seq<char>,
    Option<PipelineErrorView>,
) {
    match o {
        RunOutcome::SpawnFailed { message } => (
            Seq::empty(),
            Some(PipelineErrorView::Failure { message: message@ }),
        ),
        RunOutcome::TimedOut { timeout_secs } => (
            Seq::empty(),
            Some(PipelineErrorView::Failure { message: timeout_message(timeout_secs as nat) }),
        ),
        RunOutcome::WaitFailed { message } => (
            Seq::empty(),
            Some(PipelineErrorView::Failure { message: message@ }),
        ),
        RunOutcome::Exited { success, status, stdout, stderr } => exit_result(
            success,
            status@,
            utf8_lossy(stdout@),
            utf8_lossy(stderr@),
            strip_prefix,
        ),
    }
}

/// Strips `prefix` from the front of `raw` (when present) and trims the rest.
fn strip_response(raw: String, strip_prefix: Option<&str>) -> (r: String)
    ensures
        r@ == response_of(
            raw@,
            match strip_prefix {
                Some(p) => Some(p@),
                None => None,
            },
        ),
{
    match strip_prefix {
        Some(p) => {
            if starts_with(raw.as_str(), p) {
                let n = crate::text::chars_of(p).len();
                let rv = crate::text::chars_of(raw.as_str());
                let mut rest = String::new();
                crate::text::push_chars(&mut rest, &rv, n, rv.len());
                trim(rest.as_str())
            } else {
                trim(raw.as_str())
            }
        },
        None => raw,
    }
}

/// The response text and pipeline error of an agent that exited with status
/// `status` (success or not) after writing the decoded texts `stdout` and
/// `stderr` (see `exit_result`).
pub fn interpret_exit(
    success: bool,
    status: &str,
    stdout: &str,
    stderr: &str,
    strip_prefix: Option<&str>,
) -> (r: (String, Option<PipelineError>))
    ensures
        (r.0@, opt_error(r.1)) == exit_result(
            success,
            status@,
            stdout@,
            stderr@,
            match strip_prefix {
                Some(p) => Some(p@),
                None => None,
            },
        ),
{
    let raw = trim(stdout);
    let raw_len = crate::text::chars_of(raw.as_str()).len();
    let text = strip_response(raw, strip_prefix);
    let err = trim(stderr);
    let mut st = String::new();
    push_str(&mut st, status);
    if success {
        (text, None)
    } else if crate::text::chars_of(err.as_str()).len() > 0 {
        (text, Some(PipelineError::Stderr { text: err }))
    } else if raw_len > 0 {
        (text, Some(PipelineError::ExitStatus { status: st }))
    } else {
        (text, Some(PipelineError::SilentExit { status: st }))
    }
}

/// The response text and pipeline error of an invocation (see `invocation_result`).
pub fn read_outcome(outcome: RunOutcome, strip_prefix: Option<&str>) -> (r: (
    String,
    Option<PipelineError>,
))
    ensures
        (r.0@, opt_error(r.1)) == invocation_result(
            outcome,
            match strip_prefix {
                Some(p) => Some(p@),
                None => None,
            },
        ),
        outcome matches RunOutcome::Exited { success, status, stdout, stderr } ==> (
        vstd::utf8::valid_utf8(stdout@) && vstd::utf8::valid_utf8(stderr@) ==> (r.0@, opt_error(r.1))
            == exit_result(
            success,
            status@,
            vstd::utf8::decode_utf8(stdout@),
            vstd::utf8::decode_utf8(stderr@),
            match strip_prefix {
                Some(p) => Some(p@),
                None => None,
            },
        )),
{
    match outcome {
        RunOutcome::SpawnFailed { message } => (String::new(), Some(PipelineError::Failure { message })),
        RunOutcome::TimedOut { timeout_secs } => {
            let mut m = String::new();
            push_str(&mut m, "timeout after ");
            push_decimal(&mut m, timeout_secs);
            push_str(&mut m, "s");
            (String::new(), Some(PipelineError::Failure { message: m }))
        },
        RunOutcome::WaitFailed { message } => (String::new(), Some(PipelineError::Failure { message })),
        RunOutcome::Exited { success, status, stdout, stderr } => {
            let out = decode_lossy(stdout.as_slice());
            let err = decode_lossy(stderr.as_slice());
            interpret_exit(success, status.as_str(), out.as_str(), err.as_str(), strip_prefix)
        },
    }
}

} // verus!
