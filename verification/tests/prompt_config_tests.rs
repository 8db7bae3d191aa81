use agent_evaluation::config::{
    merge_profile, AgentCatalog, AgentInfo, AgentMode, ConfigError, EvalConfig, ExecutionConfig,
    ModelInfo, ProfileOverlay, SubprocessConfig, VariationOverride,
};
use agent_evaluation::prompt::{build_prompt, dry_run_response};
use agent_evaluation::runner::{CliEvalRunner, CliRunnerOptions};
use agent_evaluation::scenario::{ChatMessage, EvalVariation, VariationRubric};

fn profile(id: &str, bin: Option<&str>) -> EvalConfig {
    EvalConfig {
        agent: AgentInfo {
            id: id.to_string(),
            name: format!("{} agent", id),
            mode: AgentMode::Sandboxed,
        },
        model: ModelInfo { provider: "anthropic".to_string(), name: "sonnet-4-6".to_string() },
        subprocess: SubprocessConfig {
            bin: bin.map(|b| b.to_string()),
            args_prefix: vec!["exec".to_string()],
            env: vec![],
            response_strip_prefix: None,
        },
        execution: ExecutionConfig {
            trials: 1,
            retries: 2,
            timeout_secs: 30,
            delay_between_variations_ms: 0,
            rate_limit_backoff_secs: 5,
        },
        variation_overrides: vec![],
    }
}

fn overlay(id: &str, bin: Option<&str>) -> ProfileOverlay {
    ProfileOverlay {
        agent_id: id.to_string(),
        agent_name: None,
        mode: None,
        provider: None,
        model_name: None,
        bin: bin.map(|b| b.to_string()),
        args_prefix: None,
        env: vec![],
        response_strip_prefix: None,
        trials: None,
        retries: None,
        timeout_secs: None,
        delay_between_variations_ms: None,
        rate_limit_backoff_secs: None,
        variation_overrides: vec![],
    }
}

fn rubric(min_words: Option<u32>, checks: &[&str]) -> VariationRubric {
    VariationRubric {
        expected_keywords: vec!["four".to_string()],
        min_words,
        max_words: Some(400),
        checks: checks.iter().map(|c| c.to_string()).collect(),
    }
}

fn message(role: &str, content: &str) -> ChatMessage {
    ChatMessage { role: role.to_string(), content: content.to_string() }
}

#[test]
fn prompt_without_history_is_unchanged() {
    let v = EvalVariation {
        id: "v1".into(),
        prompt: "What is 2+2?".into(),
        history: vec![],
        rubric: rubric(None, &[]),
    };
    assert_eq!(build_prompt(&v), "What is 2+2?");
}

#[test]
fn prompt_with_history_labels_roles() {
    let v = EvalVariation {
        id: "v1".into(),
        prompt: "And now?".into(),
        history: vec![
            message("user", "Hi"),
            message("assistant", "Hello!"),
            message("system", "Be brief."),
        ],
        rubric: rubric(None, &[]),
    };
    assert_eq!(
        build_prompt(&v),
        "Continue this conversation and respond to the final user message.\n\n\
         User: Hi\n\nAssistant: Hello!\n\nsystem: Be brief.\n\nUser: And now?"
    );
}

#[test]
fn dry_run_stub_names_scenario_and_variation() {
    assert_eq!(
        dry_run_response("s1_simple_query", "v2"),
        "[DRY-RUN stub — s1_simple_query / v2] Placeholder response for check-logic validation."
    );
}

#[test]
fn mode_names_are_lower_case() {
    assert_eq!(AgentMode::Autonomous.name(), "autonomous");
    assert_eq!(AgentMode::Sandboxed.name(), "sandboxed");
    assert_eq!(AgentMode::Iterative.name(), "iterative");
}

#[test]
fn override_takes_precedence_over_profile_bin() {
    let cfg = profile("gestura-full", Some("gestura"));
    let over = "/opt/bin/agent".to_string();
    assert_eq!(cfg.resolve_bin(Some(&over)), Some("/opt/bin/agent".to_string()));
    assert_eq!(cfg.resolve_bin(None), Some("gestura".to_string()));
    let auto = profile("x", None);
    assert_eq!(auto.resolve_bin(None), None);
}

#[test]
fn load_builtin_finds_first_profile_with_id() {
    let catalog = AgentCatalog {
        baseline: profile("baseline", None),
        profiles: vec![overlay("a", Some("one")), overlay("b", Some("two")), overlay("b", Some("three"))],
    };
    let c = catalog.load_builtin("b").ok().unwrap();
    assert_eq!(c.agent.id, "b");
    assert_eq!(c.subprocess.bin.as_deref(), Some("two"));
}

#[test]
fn load_builtin_reports_unknown_agent() {
    let catalog = AgentCatalog { baseline: profile("baseline", None), profiles: vec![overlay("a", None)] };
    match catalog.load_builtin("zz") {
        Err(ConfigError::UnknownAgent { agent_id }) => assert_eq!(agent_id, "zz"),
        Ok(_) => panic!("expected an error"),
    }
}

#[test]
fn options_new_defaults() {
    let o = CliRunnerOptions::new(profile("gestura-full", Some("gestura")));
    assert!(o.scenario_ids.is_empty());
    assert!(!o.dry_run);
    assert!(o.bin_override.is_none());
    assert_eq!(o.eval_config.agent.id, "gestura-full");
}

#[test]
fn options_for_agent() {
    let catalog = AgentCatalog {
        baseline: profile("baseline", Some("gestura")),
        profiles: vec![overlay("codex-full", Some("codex"))],
    };
    let o = CliRunnerOptions::for_agent(&catalog, "codex-full").ok().unwrap();
    assert_eq!(o.eval_config.subprocess.bin.as_deref(), Some("codex"));
    assert!(o.scenario_ids.is_empty() && !o.dry_run && o.bin_override.is_none());
    assert!(matches!(
        CliRunnerOptions::for_agent(&catalog, "nope"),
        Err(ConfigError::UnknownAgent { .. })
    ));
}

#[test]
fn runner_bin_and_header() {
    let mut o = CliRunnerOptions::new(profile("opencode-full", Some("opencode")));
    o.dry_run = true;
    let runner = CliEvalRunner::new(o);
    assert_eq!(runner.bin(), Some("opencode".to_string()));
    let h = runner.report_header();
    assert_eq!(h.agent_id, "opencode-full");
    assert_eq!(h.agent_name, "opencode-full agent");
    assert_eq!(h.mode, "sandboxed");
    assert_eq!(h.provider, "anthropic");
    assert_eq!(h.model, "sonnet-4-6");
    assert!(h.dry_run);

    let mut o2 = CliRunnerOptions::new(profile("opencode-full", Some("opencode")));
    o2.bin_override = Some("/usr/local/bin/opencode".to_string());
    assert_eq!(CliEvalRunner::new(o2).bin(), Some("/usr/local/bin/opencode".to_string()));
}

#[test]
fn duplicate_profile_is_equal() {
    let mut p = profile("a", Some("x"));
    p.subprocess.env = vec![("K".into(), "V".into())];
    p.subprocess.response_strip_prefix = Some("Assistant:".into());
    let d = p.duplicate();
    assert_eq!(d.agent.id, p.agent.id);
    assert_eq!(d.subprocess.env, p.subprocess.env);
    assert_eq!(d.subprocess.args_prefix, p.subprocess.args_prefix);
    assert_eq!(d.subprocess.response_strip_prefix, p.subprocess.response_strip_prefix);
    assert_eq!(d.execution.retries, p.execution.retries);
}

#[test]
fn profile_merges_onto_baseline() {
    let mut base = profile("baseline", Some("gestura"));
    base.subprocess.env = vec![("A".into(), "1".into()), ("B".into(), "2".into())];
    base.variation_overrides = vec![VariationOverride {
        scenario_id: "s3".into(),
        variation_id: "v1".into(),
        min_words: Some(50),
        max_words: None,
        additional_checks: None,
    }];
    let mut ov = overlay("codex-full", Some("codex"));
    ov.mode = Some(AgentMode::Autonomous);
    ov.args_prefix = Some(vec!["--full-auto".into()]);
    ov.env = vec![("B".into(), "3".into()), ("C".into(), "4".into())];
    ov.trials = Some(3);
    let merged = merge_profile(&base, &ov);
    assert_eq!(merged.agent.id, "codex-full");
    assert_eq!(merged.agent.name, "baseline agent");
    assert!(merged.agent.mode == AgentMode::Autonomous);
    assert_eq!(merged.model.name, "sonnet-4-6");
    assert_eq!(merged.subprocess.bin.as_deref(), Some("codex"));
    assert_eq!(merged.subprocess.args_prefix, vec!["--full-auto".to_string()]);
    assert_eq!(merged.execution.trials, 3);
    assert_eq!(merged.execution.retries, 2);
    assert_eq!(merged.variation_overrides.len(), 1);
    // The environment merges key by key, the profile's value winning.
    let env: std::collections::HashMap<String, String> = merged.subprocess.env.iter().cloned().collect();
    assert_eq!(env.get("A").map(String::as_str), Some("1"));
    assert_eq!(env.get("B").map(String::as_str), Some("3"));
    assert_eq!(env.get("C").map(String::as_str), Some("4"));
}

#[test]
fn variation_overrides_apply_to_their_variation_only() {
    let mut cfg = profile("gestura-full", None);
    cfg.variation_overrides = vec![
        VariationOverride {
            scenario_id: "s3_planning".into(),
            variation_id: "v1".into(),
            min_words: Some(80),
            max_words: None,
            additional_checks: Some(vec!["first".into()]),
        },
        VariationOverride {
            scenario_id: "s3_planning".into(),
            variation_id: "v1".into(),
            min_words: Some(120),
            max_words: None,
            additional_checks: Some(vec!["has_structured_sections".into()]),
        },
        VariationOverride {
            scenario_id: "s3_planning".into(),
            variation_id: "v2".into(),
            min_words: Some(5),
            max_words: Some(6),
            additional_checks: None,
        },
    ];
    let v1 = EvalVariation {
        id: "v1".into(),
        prompt: "Plan it".into(),
        history: vec![],
        rubric: rubric(Some(10), &["no_fabrication"]),
    };
    let r = cfg.rubric_for("s3_planning", &v1);
    assert_eq!(r.min_words, Some(120));
    assert_eq!(r.max_words, Some(400));
    assert_eq!(r.expected_keywords, vec!["four".to_string()]);
    assert_eq!(r.checks, vec!["no_fabrication".to_string(), "has_structured_sections".to_string()]);
    let other = cfg.rubric_for("s1_simple_query", &v1);
    assert_eq!(other.min_words, Some(10));
    assert_eq!(other.checks, vec!["no_fabrication".to_string()]);
}
