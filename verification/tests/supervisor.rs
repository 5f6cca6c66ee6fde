use apexos::dispatch::{
    forward_failure, message_ack, peers_reply, plan_dispatch, plugin_reply, proposal_ack, soul_reply,
    DispatchEnv, DispatchPlan, Forward,
};
use apexos::json::JsonValue;
use apexos::policy::{Mode, PolicyConfig, PolicyEngine, Rule};
use apexos::supervisor::{DirectRoute, Reaction, RestartPolicy, SupervisorCore};
use apexos::types::{ActionId, EvolutionId, PluginId, SessionId, ToolCall, ToolOutput, ToolSpec};

fn call(id: u64, tool: &str, args: JsonValue) -> ToolCall {
    ToolCall { id: ActionId(id), tool: tool.into(), args, needs_approval: false }
}

fn obj(fields: &[(&str, JsonValue)]) -> JsonValue {
    JsonValue::object(fields.iter().map(|(k, v)| (k.to_string(), v.deep_copy())).collect())
}

fn spec(name: &str) -> ToolSpec {
    ToolSpec { name: name.into(), description: String::new(), input_schema: JsonValue::Null }
}

fn policy(mode: Mode, rules: &[(&str, Rule)]) -> PolicyEngine {
    PolicyEngine::new(PolicyConfig {
        mode,
        rules: rules.iter().map(|(k, v)| (k.to_string(), *v)).collect(),
        ..Default::default()
    })
}

const ENV: DispatchEnv = DispatchEnv { rollback_ready: true, schedule_ready: true, council_ready: true };

#[test]
fn asked_call_is_held_then_released_once() {
    let mut core = SupervisorCore::new();
    let p = policy(Mode::Suggest, &[]);
    match core.on_tool_requested(&p, SessionId(1), call(9, "shell.exec", JsonValue::Null)) {
        Reaction::AwaitApproval { session, call } => {
            assert_eq!(session, SessionId(1));
            assert_eq!(call.id, ActionId(9));
        },
        other => panic!("unexpected {:?}", other),
    }
    assert_eq!(core.pending_approvals.len(), 1);
    match core.on_user_approval(SessionId(1), ActionId(9), true) {
        Reaction::Dispatch { call, .. } => assert_eq!(call.tool, "shell.exec"),
        other => panic!("unexpected {:?}", other),
    }
    assert!(matches!(core.on_user_approval(SessionId(1), ActionId(9), true), Reaction::Nothing));
}

#[test]
fn denied_call_is_answered_as_denied() {
    let mut core = SupervisorCore::new();
    let p = policy(Mode::Suggest, &[]);
    let _ = core.on_tool_requested(&p, SessionId(2), call(3, "fs.write", JsonValue::Null));
    match core.on_user_approval(SessionId(2), ActionId(3), false) {
        Reaction::Deny { session, action } => {
            assert_eq!(session, SessionId(2));
            assert_eq!(action, ActionId(3));
        },
        other => panic!("unexpected {:?}", other),
    }
    assert!(core.pending_approvals.is_empty());
}

#[test]
fn denial_goes_to_the_session_that_asked() {
    let mut core = SupervisorCore::new();
    let p = policy(Mode::Suggest, &[]);
    let _ = core.on_tool_requested(&p, SessionId(5), call(4, "shell.exec", JsonValue::Null));
    match core.on_user_approval(SessionId(7), ActionId(4), false) {
        Reaction::Deny { session, action } => {
            assert_eq!(session, SessionId(5));
            assert_eq!(action, ActionId(4));
        },
        other => panic!("unexpected {:?}", other),
    }
}

#[test]
fn allowed_call_dispatches_at_once() {
    let mut core = SupervisorCore::new();
    let p = policy(Mode::Suggest, &[("fs.read", Rule::Allow)]);
    assert!(matches!(
        core.on_tool_requested(&p, SessionId(1), call(1, "fs.read", JsonValue::Null)),
        Reaction::Dispatch { .. }
    ));
    assert!(core.pending_approvals.is_empty());
}

#[test]
fn stopped_plugin_tools_are_not_routed() {
    let mut core = SupervisorCore::new();
    let pid = PluginId("cerebro".into());
    core.on_plugin_started(&pid, RestartPolicy::Always, &vec![spec("cerebro.recall")]);
    match core.route_direct_call("cerebro.recall") {
        DirectRoute::Plugin(p) => assert_eq!(p, pid),
        other => panic!("unexpected {:?}", other),
    }
    let (was_live, restart) = core.on_plugin_died(&pid);
    assert!(was_live && restart);
    match core.route_direct_call("cerebro.recall") {
        DirectRoute::Fail(e) => assert_eq!(e, "unknown tool: cerebro.recall"),
        other => panic!("unexpected {:?}", other),
    }
    assert!(core.on_kill(&pid) == false);
    assert!(core.configs.is_empty());
}

#[test]
fn hot_reload_restarts_non_always_plugins_now() {
    let mut core = SupervisorCore::new();
    let pid = PluginId("p".into());
    core.on_plugin_started(&pid, RestartPolicy::OnFailure, &vec![spec("p.x")]);
    assert_eq!(core.on_hot_reload(&pid), (true, true));
    core.on_plugin_started(&pid, RestartPolicy::Always, &vec![spec("p.x")]);
    assert_eq!(core.on_hot_reload(&pid), (true, false));
    assert_eq!(core.on_plugin_died(&pid), (false, true));
}

#[test]
fn dispatch_routes_builtin_tools() {
    let core = SupervisorCore::new();
    match plan_dispatch(&core, ENV, &call(4, "propose_evolution", JsonValue::Null)) {
        DispatchPlan::ProposeEvolution { evolution_id } => assert_eq!(evolution_id, EvolutionId(4)),
        other => panic!("unexpected {:?}", other),
    }
    match plan_dispatch(&core, ENV, &call(5, "rollback_evolution", JsonValue::Null)) {
        DispatchPlan::Reply { ok, content } => {
            assert!(!ok);
            assert_eq!(content.as_str().unwrap(), "missing evolution_id");
        },
        other => panic!("unexpected {:?}", other),
    }
    let q = obj(&[("hours", JsonValue::uint(500)), ("types", JsonValue::string("plugin_up"))]);
    match plan_dispatch(&core, ENV, &call(6, "query_event_log", q)) {
        DispatchPlan::QueryEventLog { hours, types, max_events } => {
            assert_eq!(hours, 168);
            assert_eq!(types.as_deref(), Some("plugin_up"));
            assert_eq!(max_events, 500);
        },
        other => panic!("unexpected {:?}", other),
    }
    let off = DispatchEnv { rollback_ready: false, schedule_ready: false, council_ready: false };
    match plan_dispatch(&core, off, &call(7, "convene_council", JsonValue::Null)) {
        DispatchPlan::Reply { content, .. } => {
            assert_eq!(content.as_str().unwrap(), "council not initialized")
        },
        other => panic!("unexpected {:?}", other),
    }
    match plan_dispatch(&core, ENV, &call(8, "no.such.tool", JsonValue::Null)) {
        DispatchPlan::Reply { ok, content } => {
            assert!(!ok);
            assert_eq!(content.as_str().unwrap(), "unknown tool: no.such.tool");
        },
        other => panic!("unexpected {:?}", other),
    }
}

#[test]
fn dispatch_validates_messages_and_bootstrap() {
    let core = SupervisorCore::new();
    match plan_dispatch(&core, ENV, &call(1, "send_to_agent", obj(&[("message", JsonValue::string("hi"))]))) {
        DispatchPlan::Reply { content, .. } => assert_eq!(
            content.as_str().unwrap(),
            "send_to_agent: missing or invalid session_id"
        ),
        other => panic!("unexpected {:?}", other),
    }
    let args = obj(&[("session_id", JsonValue::uint(3)), ("message", JsonValue::string("hi"))]);
    match plan_dispatch(&core, ENV, &call(11, "send_to_agent", args)) {
        DispatchPlan::SendToAgent { to, body, msg_id } => {
            assert_eq!(to, SessionId(3));
            assert_eq!(body, "hi");
            assert_eq!(msg_id, 11);
        },
        other => panic!("unexpected {:?}", other),
    }
    match plan_dispatch(&core, ENV, &call(2, "bootstrap_node", obj(&[("target_ip", JsonValue::string("10.0.0.2"))]))) {
        DispatchPlan::Reply { content, .. } => assert_eq!(
            content.as_str().unwrap(),
            "bootstrap_node: target_ip and ssh_password are required"
        ),
        other => panic!("unexpected {:?}", other),
    }
    let args = obj(&[("target_ip", JsonValue::string("10.0.0.2")), ("ssh_password", JsonValue::string("pw"))]);
    match plan_dispatch(&core, ENV, &call(2, "bootstrap_node", args)) {
        DispatchPlan::BootstrapNode { ssh_user, repo_url, .. } => {
            assert_eq!(ssh_user, "apexos");
            assert_eq!(repo_url, "https://github.com/buckster123/ApexOS.git");
        },
        other => panic!("unexpected {:?}", other),
    }
}

#[test]
fn acknowledgements() {
    let a = proposal_ack(EvolutionId(12));
    assert_eq!(a.get_str("status").unwrap(), "proposed");
    assert_eq!(a.get_u64("evolution_id"), Some(12));
    assert_eq!(a.get_str("note").unwrap(), "proposal queued for apply");
    let m = message_ack(40);
    assert_eq!(m.get_str("status").unwrap(), "sent");
    assert_eq!(m.get_u64("msg_id"), Some(40));
    match (&a, &m) {
        (JsonValue::Object(af), JsonValue::Object(mf)) => {
            assert_eq!(af.len(), 3);
            assert_eq!(mf.len(), 2);
        },
        _ => panic!("acknowledgements are objects"),
    }
}

#[test]
fn follow_up_answers() {
    assert_eq!(forward_failure(Forward::Rollback), "rollback channel closed");
    assert_eq!(forward_failure(Forward::Schedule), "scheduler not available");
    assert_eq!(forward_failure(Forward::Council), "council handler not available");
    let s = soul_reply(None);
    assert!(s.ok);
    assert_eq!(s.content.as_str().unwrap(), "soul.md not yet initialized");
    assert_eq!(soul_reply(Some("be kind".into())).content.as_str().unwrap(), "be kind");
    let p = peers_reply(None);
    assert!(p.ok);
    assert_eq!(p.content.as_str().unwrap(), "# no peers registered\n");
    let e = plugin_reply(Err("broken pipe".into()));
    assert!(!e.ok);
    assert_eq!(e.content.as_str().unwrap(), "broken pipe");
    let o = plugin_reply(Ok(ToolOutput { ok: true, content: JsonValue::uint(3) }));
    assert!(o.ok);
    assert_eq!(o.content.as_u64(), Some(3));
}
