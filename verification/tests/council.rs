use apexos::council::{find_council, next_council, parse_agent_def, CouncilRecord, CouncilStart};
use apexos::json::JsonValue;
use apexos::types::{ActionId, Event, SessionId};

fn obj(fields: &[(&str, JsonValue)]) -> JsonValue {
    JsonValue::object(fields.iter().map(|(k, v)| (k.to_string(), v.deep_copy())).collect())
}

#[test]
fn agent_definitions_from_strings_and_objects() {
    let d = parse_agent_def(&JsonValue::string("AZOTH")).unwrap();
    assert_eq!(d.id, "AZOTH");
    assert_eq!(d.persona, "");
    assert!(d.backend.is_none() && d.model.is_none() && d.color.is_none());
    let d = parse_agent_def(&obj(&[
        ("id", JsonValue::string("critic")),
        ("persona", JsonValue::string("sceptic")),
        ("model", JsonValue::string("m")),
        ("color", JsonValue::uint(3)),
    ]))
    .unwrap();
    assert_eq!(d.id, "critic");
    assert_eq!(d.persona, "sceptic");
    assert_eq!(d.model.as_deref(), Some("m"));
    assert!(d.color.is_none());
    assert!(parse_agent_def(&obj(&[("persona", JsonValue::string("p"))])).is_none());
    assert!(parse_agent_def(&JsonValue::uint(1)).is_none());
}

#[test]
fn council_calls_need_agents() {
    let mut counter = 0u64;
    match next_council(&mut counter, SessionId(1), ActionId(2), &obj(&[("topic", JsonValue::string("t"))])) {
        CouncilStart::Refused(Event::ToolResult { session, call, output }) => {
            assert_eq!(session, SessionId(1));
            assert_eq!(call, ActionId(2));
            assert!(!output.ok);
            assert_eq!(output.content.as_str().unwrap(), "convene_council: 'agents' must be an array");
        },
        other => panic!("unexpected {:?}", other),
    }
    let none = obj(&[("agents", JsonValue::array(vec![JsonValue::uint(1)]))]);
    match next_council(&mut counter, SessionId(1), ActionId(3), &none) {
        CouncilStart::Refused(Event::ToolResult { output, .. }) => {
            assert_eq!(output.content.as_str().unwrap(), "convene_council: at least one agent required")
        },
        other => panic!("unexpected {:?}", other),
    }
    assert_eq!(counter, 2);
}

#[test]
fn council_runs_with_defaults() {
    let mut counter = 4u64;
    let args = obj(&[
        ("topic", JsonValue::string("naming")),
        ("agents", JsonValue::array(vec![JsonValue::string("A"), JsonValue::uint(9), JsonValue::string("B")])),
    ]);
    match next_council(&mut counter, SessionId(1), ActionId(1), &args) {
        CouncilStart::Run { council_id, topic, agents, max_rounds } => {
            assert_eq!(council_id, "c5");
            assert_eq!(topic, "naming");
            assert_eq!(agents.len(), 2);
            assert_eq!(max_rounds, 3);
        },
        other => panic!("unexpected {:?}", other),
    }
    let args = obj(&[
        ("agents", JsonValue::array(vec![JsonValue::string("A")])),
        ("max_rounds", JsonValue::uint(4294967301)),
    ]);
    match next_council(&mut counter, SessionId(1), ActionId(1), &args) {
        CouncilStart::Run { topic, max_rounds, .. } => {
            assert_eq!(topic, "");
            assert_eq!(max_rounds, 5);
        },
        other => panic!("unexpected {:?}", other),
    }
}

#[test]
fn council_records_found_by_id() {
    let rec = |id: &str, status: &str| CouncilRecord {
        id: id.into(),
        topic: "t".into(),
        agents: Vec::new(),
        status: status.into(),
        rounds: 0,
        synthesis: String::new(),
    };
    let records = vec![rec("c1", "complete"), rec("gw1", "running"), rec("c1", "running")];
    assert_eq!(find_council(&records, "c1").unwrap().status, "complete");
    assert_eq!(find_council(&records, "gw1").unwrap().status, "running");
    assert!(find_council(&records, "c9").is_none());
}
