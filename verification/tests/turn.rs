use apexos::json::JsonValue;
use apexos::turn::{Chunk, ChunkStep, ResultCollector, RoundEnd, Turn};
use apexos::types::{ActionId, ContentBlock, Event, Message, SessionId, ToolOutput};

fn feed(turn: &mut Turn, chunks: Vec<Chunk>) -> Vec<Event> {
    let mut emitted = Vec::new();
    for c in chunks {
        match turn.on_chunk(c) {
            ChunkStep::Emit(ev) => emitted.push(ev),
            ChunkStep::Continue => {},
            ChunkStep::Done => break,
        }
    }
    emitted
}

#[test]
fn text_only_turn_completes() {
    let mut turn = Turn::new(SessionId(1), vec![Message::user_text("hi".into())]);
    let emitted = feed(
        &mut turn,
        vec![Chunk::TextDelta("hel".into()), Chunk::TextBlock("hello".into()), Chunk::Done],
    );
    assert_eq!(emitted.len(), 1);
    match turn.end_round() {
        RoundEnd::Complete(Event::TurnComplete { session }) => assert_eq!(session, SessionId(1)),
        other => panic!("expected completion, got {:?}", other),
    }
    assert_eq!(turn.history.len(), 2, "user + assistant");
    match &turn.history[1] {
        Message::Assistant { content } => match &content[0] {
            ContentBlock::Text { text } => assert_eq!(text, "hello"),
            other => panic!("unexpected block {:?}", other),
        },
        _ => panic!("expected assistant turn"),
    }
}

#[test]
fn thinking_blocks_retained_in_history() {
    let mut turn = Turn::new(SessionId(2), vec![Message::user_text("think".into())]);
    feed(
        &mut turn,
        vec![
            Chunk::ThinkingDelta("reas".into()),
            Chunk::ThinkingBlock { thinking: "reasoning...".into(), signature: "SIG".into() },
            Chunk::TextBlock("answer".into()),
            Chunk::Done,
        ],
    );
    let _ = turn.end_round();
    match &turn.history[1] {
        Message::Assistant { content } => {
            let kept = content.iter().any(|b| matches!(b,
                ContentBlock::Thinking { thinking, signature }
                    if thinking == "reasoning..." && signature == "SIG"));
            assert!(kept, "thinking block with signature must be in assistant history");
        },
        _ => panic!("expected assistant turn"),
    }
}

#[test]
fn tool_round_trip() {
    let mut turn = Turn::new(SessionId(3), vec![Message::user_text("use tool".into())]);
    feed(
        &mut turn,
        vec![
            Chunk::ToolUse { id: "tid1".into(), name: "test.tool".into(), input: JsonValue::Null },
            Chunk::Done,
        ],
    );
    let requested = match turn.end_round() {
        RoundEnd::AwaitTools(evs) => evs,
        other => panic!("expected tool requests, got {:?}", other),
    };
    assert_eq!(requested.len(), 1);
    let action = match &requested[0] {
        Event::ToolRequested { session, call } => {
            assert_eq!(*session, SessionId(3));
            assert_eq!(call.tool, "test.tool");
            call.id
        },
        other => panic!("unexpected {:?}", other),
    };
    let mut collector = ResultCollector::new(SessionId(3), &turn.pending);
    assert!(!collector.is_done());
    collector.on_event(&Event::ToolResult {
        session: SessionId(3),
        call: action,
        output: ToolOutput { ok: true, content: JsonValue::string("result") },
    });
    assert!(collector.is_done());
    let results = collector.assemble(&turn.pending, &turn.id_map);
    turn.close_round(results);
    feed(&mut turn, vec![Chunk::TextBlock("done".into()), Chunk::Done]);
    match turn.end_round() {
        RoundEnd::Complete(_) => {},
        other => panic!("expected completion, got {:?}", other),
    }
    assert_eq!(turn.history.len(), 4);
    match &turn.history[2] {
        Message::User { content } => match &content[0] {
            ContentBlock::ToolResult { tool_use_id, content, is_error } => {
                assert_eq!(tool_use_id, "tid1");
                assert_eq!(content.as_str().unwrap(), "result");
                assert!(!is_error);
            },
            other => panic!("unexpected block {:?}", other),
        },
        _ => panic!("expected tool results"),
    }
}

#[test]
fn results_ignore_other_sessions_and_repeats() {
    let mut turn = Turn::new(SessionId(4), Vec::new());
    feed(
        &mut turn,
        vec![
            Chunk::ToolUse { id: "a".into(), name: "x".into(), input: JsonValue::Null },
            Chunk::ToolUse { id: "b".into(), name: "y".into(), input: JsonValue::Null },
            Chunk::Done,
        ],
    );
    let _ = turn.end_round();
    assert_eq!(turn.pending[0].id, ActionId(1));
    assert_eq!(turn.pending[1].id, ActionId(2));
    let mut c = ResultCollector::new(SessionId(4), &turn.pending);
    c.on_event(&Event::ToolResult {
        session: SessionId(5),
        call: ActionId(1),
        output: ToolOutput { ok: true, content: JsonValue::string("wrong session") },
    });
    assert_eq!(c.remaining.len(), 2);
    c.on_event(&Event::ToolResult {
        session: SessionId(4),
        call: ActionId(2),
        output: ToolOutput { ok: false, content: JsonValue::string("failed") },
    });
    c.on_event(&Event::ToolResult {
        session: SessionId(4),
        call: ActionId(2),
        output: ToolOutput { ok: true, content: JsonValue::string("late repeat") },
    });
    assert_eq!(c.remaining, vec![1]);
    assert!(!c.is_done());
    let blocks = c.assemble(&turn.pending, &turn.id_map);
    assert_eq!(blocks.len(), 2);
    match &blocks[0] {
        ContentBlock::ToolResult { tool_use_id, content, is_error } => {
            assert_eq!(tool_use_id, "a");
            assert_eq!(content.as_str().unwrap(), "missing result");
            assert!(*is_error);
        },
        other => panic!("unexpected {:?}", other),
    }
    match &blocks[1] {
        ContentBlock::ToolResult { tool_use_id, content, is_error } => {
            assert_eq!(tool_use_id, "b");
            assert_eq!(content.as_str().unwrap(), "failed");
            assert!(*is_error);
        },
        other => panic!("unexpected {:?}", other),
    }
}

#[test]
fn a_response_is_read_up_to_done() {
    let mut turn = Turn::new(SessionId(6), vec![Message::user_text("go".into())]);
    let emitted = turn.on_response(vec![
        Chunk::TextDelta("he".into()),
        Chunk::ThinkingBlock { thinking: "t".into(), signature: "S".into() },
        Chunk::TextBlock("hello".into()),
        Chunk::ToolUse { id: "u1".into(), name: "fs.read".into(), input: JsonValue::Null },
        Chunk::Done,
        Chunk::TextBlock("after done".into()),
    ]);
    assert_eq!(emitted.len(), 1);
    match &emitted[0] {
        Event::AgentText { session, delta } => {
            assert_eq!(*session, SessionId(6));
            assert_eq!(delta, "he");
        },
        other => panic!("unexpected {:?}", other),
    }
    assert_eq!(turn.blocks.len(), 3);
    assert_eq!(turn.pending.len(), 1);
    assert_eq!(turn.pending[0].id, ActionId(1));
    assert_eq!(turn.next_id, 2);
    assert_eq!(turn.history.len(), 1);
}

#[test]
fn a_run_of_events_gives_each_call_its_first_result() {
    let mut turn = Turn::new(SessionId(8), Vec::new());
    let _ = turn.on_response(vec![
        Chunk::ToolUse { id: "a".into(), name: "x".into(), input: JsonValue::Null },
        Chunk::ToolUse { id: "b".into(), name: "y".into(), input: JsonValue::Null },
        Chunk::Done,
    ]);
    let _ = turn.end_round();
    let mut c = ResultCollector::new(SessionId(8), &turn.pending);
    let result = |s: u64, a: u64, text: &str| Event::ToolResult {
        session: SessionId(s),
        call: ActionId(a),
        output: ToolOutput { ok: true, content: JsonValue::string(text) },
    };
    c.absorb(&vec![
        result(9, 1, "other session"),
        result(8, 2, "first for 2"),
        Event::TurnComplete { session: SessionId(8) },
        result(8, 2, "second for 2"),
        result(8, 7, "unknown call"),
    ]);
    assert!(!c.is_done());
    c.absorb(&vec![result(8, 1, "first for 1")]);
    assert!(c.is_done());
    let blocks = c.assemble(&turn.pending, &turn.id_map);
    let texts: Vec<String> = blocks
        .iter()
        .map(|b| match b {
            ContentBlock::ToolResult { content, .. } => content.as_str().unwrap().to_string(),
            other => panic!("unexpected {:?}", other),
        })
        .collect();
    assert_eq!(texts, vec!["first for 1".to_string(), "first for 2".to_string()]);
    let ids: Vec<String> = blocks
        .iter()
        .map(|b| match b {
            ContentBlock::ToolResult { tool_use_id, .. } => tool_use_id.clone(),
            other => panic!("unexpected {:?}", other),
        })
        .collect();
    assert_eq!(ids, vec!["a".to_string(), "b".to_string()]);
}
