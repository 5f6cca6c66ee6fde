use apexos::json::JsonValue;
use apexos::state::SystemState;
use apexos::types::{ActionId, AgentContext, Event, PluginId, SessionId, ToolCall, ToolSpec};

fn spec(name: &str) -> ToolSpec {
    ToolSpec {
        name: name.into(),
        description: String::new(),
        input_schema: JsonValue::object(Vec::new()),
    }
}

#[test]
fn user_prompt_creates_root_session_and_appends_history() {
    let mut s = SystemState::default();
    s.apply(&Event::UserPrompt { session: SessionId(1), text: "hi".into() });
    let ctx = s.sessions.get(&1).unwrap();
    assert!(ctx.is_root());
    assert_eq!(ctx.history.len(), 1);
}

#[test]
fn plugin_up_registers_tools_then_down_removes_them() {
    let mut s = SystemState::default();
    let pid = PluginId("cerebro".into());
    s.apply(&Event::PluginUp {
        plugin: pid.clone(),
        tools: vec![spec("cerebro.recall"), spec("cerebro.store")],
    });
    assert_eq!(s.tools.len(), 2);
    assert_eq!(s.tool_owner("cerebro.recall"), Some(&pid));

    s.apply(&Event::PluginDown { plugin: pid.clone(), reason: "exit".into() });
    assert!(s.tools.is_empty());
    assert!(s.plugins.is_empty());
}

#[test]
fn subtree_collects_transitive_children() {
    let mut s = SystemState::default();
    s.apply(&Event::UserPrompt { session: SessionId(1), text: "root".into() });
    s.register_child(SessionId(2), SessionId(1));
    s.register_child(SessionId(3), SessionId(1));
    s.register_child(SessionId(4), SessionId(2));
    let mut tree = s.subtree(SessionId(1));
    tree.sort_by_key(|s| s.0);
    assert_eq!(tree, vec![SessionId(1), SessionId(2), SessionId(3), SessionId(4)]);
}

#[test]
fn approval_pending_then_resolved_clears_state() {
    let mut s = SystemState::default();
    let call = ToolCall {
        id: ActionId(7),
        tool: "shell.exec".into(),
        args: JsonValue::object(vec![("cmd".to_string(), JsonValue::string("ls"))]),
        needs_approval: true,
    };
    s.apply(&Event::ApprovalPending { session: SessionId(1), call });
    assert_eq!(s.pending_approvals.len(), 1);
    s.apply(&Event::UserApproval { session: SessionId(1), action: ActionId(7), granted: true });
    assert!(s.pending_approvals.is_empty());
}

#[test]
fn second_prompt_extends_the_same_session() {
    let mut s = SystemState::new();
    s.apply(&Event::UserPrompt { session: SessionId(5), text: "one".into() });
    s.apply(&Event::UserPrompt { session: SessionId(5), text: "two".into() });
    let ctx = s.sessions.get(&5).unwrap();
    assert_eq!(ctx.history.len(), 2);
    assert_eq!(s.sessions.len(), 1);
}

#[test]
fn plugin_down_keeps_other_plugins_tools() {
    let mut s = SystemState::default();
    let a = PluginId("a".into());
    let b = PluginId("b".into());
    s.apply(&Event::PluginUp { plugin: a.clone(), tools: vec![spec("a.x")] });
    s.apply(&Event::PluginUp { plugin: b.clone(), tools: vec![spec("b.y")] });
    s.apply(&Event::PluginDown { plugin: a.clone(), reason: "exit".into() });
    assert_eq!(s.tool_owner("a.x"), None);
    assert_eq!(s.tool_owner("b.y"), Some(&b));
}

#[test]
fn later_plugin_takes_over_a_tool_name() {
    let mut s = SystemState::default();
    let a = PluginId("a".into());
    let b = PluginId("b".into());
    s.apply(&Event::PluginUp { plugin: a.clone(), tools: vec![spec("shared")] });
    s.apply(&Event::PluginUp { plugin: b.clone(), tools: vec![spec("shared")] });
    assert_eq!(s.tool_owner("shared"), Some(&b));
}

#[test]
fn contexts_root_and_child() {
    let r = AgentContext::root(SessionId(1));
    let c = AgentContext::child(SessionId(2), SessionId(1));
    assert!(r.is_root());
    assert!(!c.is_root());
    assert_eq!(c.parent, Some(SessionId(1)));
    assert!(c.history.is_empty() && c.spawned.is_empty());
}
