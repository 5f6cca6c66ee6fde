use apexos::eventlog::{
    days_back, evolution_counts, evolution_history, format_event_line, log_entries, recent_events,
    summarize_log, type_listed, EventLine,
};
use apexos::json::JsonValue;

fn obj(fields: &[(&str, JsonValue)]) -> JsonValue {
    JsonValue::object(fields.iter().map(|(k, v)| (k.to_string(), v.deep_copy())).collect())
}

fn typed(t: &str) -> JsonValue {
    obj(&[("type", JsonValue::string(t))])
}

fn text(line: Option<EventLine>) -> String {
    match line {
        Some(EventLine::Text(s)) => s,
        other => panic!("expected a text line, got {:?}", other),
    }
}

#[test]
fn event_lines_summarise_records() {
    let prompt = obj(&[
        ("type", JsonValue::string("user_prompt")),
        ("session", JsonValue::uint(7)),
        ("text", JsonValue::string("hello there")),
    ]);
    assert_eq!(text(format_event_line(&prompt)), "Session 7: user said 'hello there'");
    let approval = obj(&[
        ("type", JsonValue::string("user_approval")),
        ("session", JsonValue::uint(2)),
        ("granted", JsonValue::Bool(true)),
    ]);
    assert_eq!(text(format_event_line(&approval)), "Session 2: approval granted");
    let plugin = obj(&[
        ("type", JsonValue::string("plugin_up")),
        ("plugin", JsonValue::string("cerebro")),
        ("tools", JsonValue::array(vec![JsonValue::Null, JsonValue::Null])),
    ]);
    assert_eq!(text(format_event_line(&plugin)), "Plugin 'cerebro' started (2 tools)");
    let applied = obj(&[
        ("type", JsonValue::string("evolution_applied")),
        ("proposal", obj(&[("kind", JsonValue::string("update_policy_rule")), ("reason", JsonValue::string("safer"))])),
    ]);
    assert_eq!(
        text(format_event_line(&applied)),
        "Evolution applied: update_policy_rule \u{2014} 'safer'"
    );
    let msg = obj(&[
        ("type", JsonValue::string("agent_message")),
        ("from", JsonValue::uint(1)),
        ("to", JsonValue::uint(2)),
        ("body", JsonValue::string("ping")),
    ]);
    assert_eq!(text(format_event_line(&msg)), "Agent 1 \u{2192} Agent 2: 'ping'");
    assert_eq!(text(format_event_line(&typed("mystery"))), "[mystery]");
    assert_eq!(text(format_event_line(&typed("wake_triggered"))), "Wake word triggered");
}

#[test]
fn noise_and_untyped_records_have_no_line() {
    assert!(format_event_line(&typed("agent_text")).is_none());
    assert!(format_event_line(&typed("turn_complete")).is_none());
    assert!(format_event_line(&JsonValue::object(Vec::new())).is_none());
}

#[test]
fn long_prompts_are_cut_to_120_characters() {
    let long = "x".repeat(200);
    let prompt = obj(&[("type", JsonValue::string("user_prompt")), ("text", JsonValue::string(&long))]);
    let line = text(format_event_line(&prompt));
    assert_eq!(line, format!("Session 0: user said '{}'", "x".repeat(120)));
}

#[test]
fn sensor_readings_are_left_to_the_caller() {
    let reading = obj(&[("iaq", JsonValue::uint(50))]);
    let rec = obj(&[
        ("type", JsonValue::string("sensor_reading")),
        ("node_id", JsonValue::string("pi4")),
        ("reading", reading),
    ]);
    match format_event_line(&rec) {
        Some(EventLine::Sensor { node, reading }) => {
            assert_eq!(node, "pi4");
            assert_eq!(reading.get_u64("iaq"), Some(50));
        },
        other => panic!("unexpected {:?}", other),
    }
}

#[test]
fn type_filter_reads_trimmed_pieces() {
    assert!(type_listed("plugin_up, plugin_down", "plugin_down"));
    assert!(type_listed(" user_prompt ", "user_prompt"));
    assert!(!type_listed("plugin_up", "plugin"));
    assert!(!type_listed("", "plugin_up"));
    assert!(type_listed("a,,b", ""));
}

#[test]
fn recent_events_drop_noise_and_keep_the_last() {
    let records = vec![
        typed("user_prompt"),
        typed("agent_text"),
        typed("plugin_up"),
        typed("tool_result"),
        typed("plugin_down"),
    ];
    let all = recent_events(&records, None, 500);
    assert_eq!(all.len(), 3);
    let last = recent_events(&records, None, 2);
    assert_eq!(last.len(), 2);
    assert_eq!(last[0].get_str("type").unwrap(), "plugin_up");
    assert_eq!(last[1].get_str("type").unwrap(), "plugin_down");
    let filtered = recent_events(&records, Some("plugin_up,plugin_down"), 500);
    assert_eq!(filtered.len(), 2);
}

#[test]
fn evolution_history_and_counts() {
    let applied = |kind: &str| {
        obj(&[
            ("type", JsonValue::string("evolution_applied")),
            ("proposal", obj(&[("kind", JsonValue::string(kind))])),
        ])
    };
    let records = vec![
        applied("update_policy_rule"),
        typed("evolution_rolled_back"),
        applied("update_policy_rule"),
        obj(&[("type", JsonValue::string("evolution_applied"))]),
        typed("user_prompt"),
    ];
    assert_eq!(evolution_history(&records).len(), 3);
    let c = evolution_counts(&records);
    assert_eq!(c.applied_total, 3);
    assert_eq!(c.rolledback_total, 1);
    let mut kinds = c.by_kind.clone();
    kinds.sort();
    assert_eq!(
        kinds,
        vec![("unknown".to_string(), 1), ("update_policy_rule".to_string(), 2)]
    );
    assert_eq!(c.by_kind.iter().map(|(_, n)| n).sum::<u64>(), c.applied_total);
}

#[test]
fn query_summary_shows_the_last_lines() {
    let lines: Vec<String> = vec!["a".into(), "b".into(), "c".into()];
    assert_eq!(summarize_log(&lines, 24, 2), "Last 24h event log (3 events, showing 2):\n\nb\nc");
    assert_eq!(summarize_log(&Vec::new(), 6, 10), "No matching events found in the last 6h.");
    let records = vec![typed("plugin_down"), typed("agent_text")];
    assert_eq!(log_entries(&records, None).len(), 1);
}

#[test]
fn days_cover_the_window() {
    assert_eq!(days_back(0), 1);
    assert_eq!(days_back(1), 2);
    assert_eq!(days_back(24), 2);
    assert_eq!(days_back(25), 3);
    assert_eq!(days_back(168), 8);
}
