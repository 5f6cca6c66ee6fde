use std::collections::HashMap;

use apexos::agent::{
    agent_spawn_spec, extract_final_text, finish_child, finish_root, gather_tools,
    propose_evolution_spec, take_cancelled, Router, SpawnOutcome, FIRST_CHILD_ID,
};
use apexos::json::JsonValue;
use apexos::types::{ActionId, ContentBlock, Event, Message, PluginId, SessionId, ToolSpec};

#[test]
fn extract_final_text_gets_last_assistant_text() {
    let history = vec![
        Message::User { content: vec![ContentBlock::Text { text: "hi".into() }] },
        Message::Assistant { content: vec![ContentBlock::Text { text: "hello".into() }] },
        Message::User { content: vec![ContentBlock::Text { text: "more".into() }] },
        Message::Assistant {
            content: vec![
                ContentBlock::Thinking { thinking: "...".into(), signature: "sig".into() },
                ContentBlock::Text { text: "final answer".into() },
            ],
        },
    ];
    assert_eq!(extract_final_text(&history), "final answer");
}

#[test]
fn extract_final_text_skips_non_text_blocks() {
    let history = vec![
        Message::Assistant {
            content: vec![ContentBlock::Thinking { thinking: "hmm".into(), signature: "s".into() }],
        },
        Message::Assistant { content: vec![ContentBlock::Text { text: "result".into() }] },
    ];
    assert_eq!(extract_final_text(&history), "result");
}

#[test]
fn agent_spawn_spec_has_required_prompt() {
    let spec = agent_spawn_spec();
    assert_eq!(spec.name, "agent_spawn");
    let required = spec.input_schema.get("required").unwrap().as_array().unwrap();
    assert!(required.iter().any(|v| v.as_str().map(|s| s.as_str()) == Some("prompt")));
}

#[test]
fn final_text_joins_blocks_and_skips_silent_turns() {
    let history = vec![
        Message::Assistant {
            content: vec![
                ContentBlock::Text { text: "part one, ".into() },
                ContentBlock::Text { text: "part two".into() },
            ],
        },
        Message::Assistant {
            content: vec![ContentBlock::Thinking { thinking: "t".into(), signature: "s".into() }],
        },
        Message::User { content: vec![ContentBlock::Text { text: "user".into() }] },
    ];
    assert_eq!(extract_final_text(&history), "part one, part two");
    assert_eq!(extract_final_text(&Vec::new()), "");
}

#[test]
fn propose_evolution_requires_kind_and_reason() {
    let spec = propose_evolution_spec();
    assert_eq!(spec.name, "propose_evolution");
    let required = spec.input_schema.get("required").unwrap().as_array().unwrap();
    let names: Vec<&str> = required.iter().map(|v| v.as_str().unwrap().as_str()).collect();
    assert_eq!(names, vec!["kind", "reason"]);
    let props = spec.input_schema.get("properties").unwrap();
    let modes = props.get("new_mode").unwrap().get("enum").unwrap().as_array().unwrap();
    assert_eq!(modes.len(), 3);
}

fn tool(name: &str) -> ToolSpec {
    ToolSpec { name: name.into(), description: String::new(), input_schema: JsonValue::Null }
}

#[test]
fn gathered_tools_end_with_the_synthetic_ones() {
    let registry = vec![
        ("a".to_string(), vec![tool("a.one"), tool("a.two")]),
        ("b".to_string(), vec![tool("b.one")]),
    ];
    let tools = gather_tools(&registry);
    let names: Vec<&str> = tools.iter().map(|t| t.name.as_str()).collect();
    assert_eq!(names, vec!["a.one", "a.two", "b.one", "agent_spawn", "propose_evolution"]);
}

#[test]
fn spawn_respects_max_depth() {
    let mut router = Router::new(1);
    let mut histories: HashMap<u64, Vec<Message>> = HashMap::new();
    let _ = router.on_user_prompt(&mut histories, SessionId(7), "root".into());
    let first = router.on_spawn(&mut histories, SessionId(7), ActionId(1), "child task".into());
    let child = match first {
        SpawnOutcome::Start { child, history, tools } => {
            assert_eq!(child, SessionId(FIRST_CHILD_ID));
            assert_eq!(history.len(), 1);
            assert_eq!(tools.len(), 2);
            child
        },
        SpawnOutcome::Refused(_) => panic!("first level must be allowed"),
    };
    assert_eq!(histories.get(&child.0).map(|h| h.len()), Some(1));
    match router.on_spawn(&mut histories, child, ActionId(2), "grandchild".into()) {
        SpawnOutcome::Refused(Event::ToolResult { session, call, output }) => {
            assert_eq!(session, child);
            assert_eq!(call, ActionId(2));
            assert!(!output.ok);
            assert_eq!(output.content.as_str().unwrap(), "max sub-agent depth exceeded");
        },
        other => panic!("expected refusal, got {:?}", other),
    }
    assert_eq!(router.next_child_id, FIRST_CHILD_ID + 1);
}

#[test]
fn user_prompt_appends_to_history() {
    let mut router = Router::new(4);
    let mut histories: HashMap<u64, Vec<Message>> = HashMap::new();
    let (snap1, _) = router.on_user_prompt(&mut histories, SessionId(3), "one".into());
    let (snap2, tools) = router.on_user_prompt(&mut histories, SessionId(3), "two".into());
    assert_eq!(snap1.len(), 1);
    assert_eq!(snap2.len(), 2);
    assert_eq!(histories.get(&3).unwrap().len(), 2);
    assert_eq!(router.depths.get(&3), Some(&0));
    assert_eq!(tools.len(), 2);
}

#[test]
fn cancel_reaches_every_descendant() {
    let mut router = Router::new(8);
    let mut histories: HashMap<u64, Vec<Message>> = HashMap::new();
    let _ = router.on_user_prompt(&mut histories, SessionId(1), "root".into());
    let mut spawn = |router: &mut Router, parent: SessionId| -> SessionId {
        match router.on_spawn(&mut histories, parent, ActionId(0), "task".into()) {
            SpawnOutcome::Start { child, .. } => child,
            SpawnOutcome::Refused(_) => panic!("refused"),
        }
    };
    let a = spawn(&mut router, SessionId(1));
    let b = spawn(&mut router, SessionId(1));
    let c = spawn(&mut router, a);
    let other = spawn(&mut router, SessionId(99));
    let cancelled = router.on_cancel(SessionId(1));
    assert_eq!(cancelled, vec![SessionId(1), a, b, c]);
    assert!(!cancelled.contains(&other));
    assert_eq!(router.on_cancel(c), vec![c]);
}

#[test]
fn plugin_registry_follows_up_and_down() {
    let mut router = Router::new(4);
    router.on_plugin_up(PluginId("p".into()), vec![tool("p.x")]);
    router.on_plugin_up(PluginId("p".into()), vec![tool("p.y"), tool("p.z")]);
    assert_eq!(gather_tools(&router.tools).len(), 4);
    router.on_plugin_down(&PluginId("p".into()));
    assert_eq!(gather_tools(&router.tools).len(), 2);
}

#[test]
fn finished_child_reports_to_parent() {
    let mut histories: HashMap<u64, Vec<Message>> = HashMap::new();
    let done = vec![Message::Assistant { content: vec![ContentBlock::Text { text: "42".into() }] }];
    match finish_child(&mut histories, SessionId(10), SessionId(1), ActionId(5), Ok(done)) {
        Event::ToolResult { session, call, output } => {
            assert_eq!(session, SessionId(1));
            assert_eq!(call, ActionId(5));
            assert!(output.ok);
            assert_eq!(output.content.as_str().unwrap(), "42");
        },
        other => panic!("unexpected {:?}", other),
    }
    assert!(histories.contains_key(&10));
    match finish_child(&mut histories, SessionId(11), SessionId(1), ActionId(6), Err("boom".into())) {
        Event::ToolResult { output, .. } => {
            assert!(!output.ok);
            assert_eq!(output.content.as_str().unwrap(), "boom");
        },
        other => panic!("unexpected {:?}", other),
    }
    assert!(!histories.contains_key(&11));
    finish_root(&mut histories, SessionId(1), Ok(Vec::new()));
    assert!(histories.contains_key(&1));
    finish_root(&mut histories, SessionId(2), Err("x".into()));
    assert!(!histories.contains_key(&2));
}

#[test]
fn sub_agent_ids_are_fresh_and_in_the_upper_half() {
    let mut router = Router::new(3);
    let mut histories: HashMap<u64, Vec<Message>> = HashMap::new();
    let _ = router.on_user_prompt(&mut histories, SessionId(42), "root".into());
    let mut ids = Vec::new();
    let mut parent = SessionId(42);
    for _ in 0..3 {
        match router.on_spawn(&mut histories, parent, ActionId(0), "task".into()) {
            SpawnOutcome::Start { child, .. } => {
                assert!(child.0 >= FIRST_CHILD_ID);
                assert!(!ids.contains(&child.0));
                ids.push(child.0);
                parent = child;
            },
            SpawnOutcome::Refused(_) => panic!("refused"),
        }
    }
    assert_eq!(ids, vec![FIRST_CHILD_ID, FIRST_CHILD_ID + 1, FIRST_CHILD_ID + 2]);
}

#[test]
fn cancelled_handles_are_taken_out() {
    let mut handles = vec![(1u64, "a"), (5, "b"), (2, "c"), (9, "d")];
    let taken = take_cancelled(&mut handles, &vec![SessionId(2), SessionId(1), SessionId(7)]);
    assert_eq!(taken, vec![(1, "a"), (2, "c")]);
    assert_eq!(handles, vec![(5, "b"), (9, "d")]);
}
