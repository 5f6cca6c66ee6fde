use apexos::policy::{
    default_inherit_mode, default_max_concurrent, default_max_depth, matches_wildcard, Decision,
    Mode, PolicyConfig, PolicyEngine, Rule,
};

fn engine(mode: Mode, rules: &[(&str, Rule)]) -> PolicyEngine {
    PolicyEngine::new(PolicyConfig {
        mode,
        rules: rules.iter().map(|(k, v)| (k.to_string(), *v)).collect(),
        ..Default::default()
    })
}

#[test]
fn yolo_allows_everything() {
    let e = engine(Mode::Yolo, &[("shell.exec", Rule::Ask)]);
    assert_eq!(e.check("shell.exec"), Decision::Allow);
    assert_eq!(e.check("anything"), Decision::Allow);
}

#[test]
fn suggest_allow_rule_passes() {
    let e = engine(Mode::Suggest, &[("fs.read", Rule::Allow)]);
    assert_eq!(e.check("fs.read"), Decision::Allow);
}

#[test]
fn suggest_ask_rule_blocks() {
    let e = engine(Mode::Suggest, &[("shell.exec", Rule::Ask)]);
    assert_eq!(e.check("shell.exec"), Decision::Ask);
}

#[test]
fn suggest_unknown_tool_blocks() {
    let e = engine(Mode::Suggest, &[]);
    assert_eq!(e.check("unknown.tool"), Decision::Ask);
}

#[test]
fn wildcard_matches_prefixed_tools() {
    let e = engine(Mode::Suggest, &[("cerebro.*", Rule::Allow)]);
    assert_eq!(e.check("cerebro.recall"), Decision::Allow);
    assert_eq!(e.check("cerebro.store"), Decision::Allow);
    assert_eq!(e.check("cerebro"), Decision::Ask);
    assert_eq!(e.check("cerebro_other"), Decision::Ask);
}

#[test]
fn exact_match_wins_over_wildcard() {
    let e = engine(Mode::Suggest, &[("cerebro.*", Rule::Allow), ("cerebro.exec", Rule::Ask)]);
    assert_eq!(e.check("cerebro.exec"), Decision::Ask);
    assert_eq!(e.check("cerebro.recall"), Decision::Allow);
}

#[test]
fn auto_edit_workspace_rule_allows() {
    let e = engine(Mode::AutoEdit, &[("fs.write", Rule::Workspace)]);
    assert_eq!(e.check("fs.write"), Decision::Allow);
}

#[test]
fn suggest_workspace_rule_blocks() {
    let e = engine(Mode::Suggest, &[("fs.write", Rule::Workspace)]);
    assert_eq!(e.check("fs.write"), Decision::Ask);
}

#[test]
fn loads_default_policy_config() {
    let cfg = PolicyConfig::default();
    assert_eq!(cfg.mode, Mode::Suggest);
    assert!(cfg.rules.is_empty());
}

#[test]
fn subagent_defaults() {
    assert_eq!(default_max_depth(), 4);
    assert_eq!(default_max_concurrent(), 16);
    assert!(default_inherit_mode());
}

#[test]
fn wildcard_needs_the_dot() {
    assert!(matches_wildcard("cerebro.*", "cerebro.recall"));
    assert!(!matches_wildcard("cerebro.*", "cerebro"));
    assert!(!matches_wildcard("cerebro.*", "cerebroX"));
    assert!(!matches_wildcard("cerebro", "cerebro.recall"));
}

#[test]
fn auto_edit_asks_for_unlisted_tools() {
    let e = engine(Mode::AutoEdit, &[("fs.write", Rule::Workspace)]);
    assert_eq!(e.check("shell.exec"), Decision::Ask);
    let e = engine(Mode::AutoEdit, &[("shell.exec", Rule::Ask)]);
    assert_eq!(e.check("shell.exec"), Decision::Ask);
}

#[test]
fn find_rule_prefers_exact() {
    let e = engine(Mode::Suggest, &[("fs.*", Rule::Allow), ("fs.write", Rule::Workspace)]);
    assert_eq!(e.find_rule("fs.write"), Some(Rule::Workspace));
    assert_eq!(e.find_rule("fs.read"), Some(Rule::Allow));
    assert_eq!(e.find_rule("net.get"), None);
    assert_eq!(e.apply_rule(Some(Rule::Allow)), Decision::Allow);
    assert_eq!(e.apply_rule(None), Decision::Ask);
}

#[test]
fn mode_names() {
    assert_eq!(Mode::from_name("suggest"), Some(Mode::Suggest));
    assert_eq!(Mode::from_name("auto-edit"), Some(Mode::AutoEdit));
    assert_eq!(Mode::from_name("yolo"), Some(Mode::Yolo));
    assert_eq!(Mode::from_name("YOLO"), None);
}
