use apexos::json::JsonValue;
use apexos::terminal::{terminal_action, TerminalAction, TerminalFrame};

fn resize(cols: Option<u64>, rows: Option<u64>) -> JsonValue {
    let mut f = vec![("type".to_string(), JsonValue::string("resize"))];
    if let Some(c) = cols {
        f.push(("cols".to_string(), JsonValue::uint(c)));
    }
    if let Some(r) = rows {
        f.push(("rows".to_string(), JsonValue::uint(r)));
    }
    JsonValue::object(f)
}

#[test]
fn resize_frames_set_the_window() {
    let text = r#"{"type":"resize","cols":120,"rows":40}"#.to_string();
    assert_eq!(
        terminal_action(TerminalFrame::Text(text), Some(resize(Some(120), Some(40)))),
        TerminalAction::Resize { cols: 120, rows: 40 }
    );
    let text = r#"{"type":"resize"}"#.to_string();
    assert_eq!(
        terminal_action(TerminalFrame::Text(text), Some(resize(None, None))),
        TerminalAction::Resize { cols: 80, rows: 24 }
    );
    let text = r#"{"type":"resize","cols":70000}"#.to_string();
    assert_eq!(
        terminal_action(TerminalFrame::Text(text), Some(resize(Some(70000), None))),
        TerminalAction::Resize { cols: 4464, rows: 24 }
    );
}

#[test]
fn other_frames_are_written_or_stop() {
    assert_eq!(
        terminal_action(TerminalFrame::Text("ls é\n".to_string()), None),
        TerminalAction::Write("ls é\n".as_bytes().to_vec())
    );
    let text = r#" {"type":"resize"}"#.to_string();
    assert_eq!(
        terminal_action(TerminalFrame::Text(text.clone()), Some(resize(None, None))),
        TerminalAction::Write(text.into_bytes())
    );
    let text = r#"{"type":"input"}"#.to_string();
    let parsed = JsonValue::object(vec![("type".to_string(), JsonValue::string("input"))]);
    assert_eq!(
        terminal_action(TerminalFrame::Text(text.clone()), Some(parsed)),
        TerminalAction::Write(text.into_bytes())
    );
    assert_eq!(
        terminal_action(TerminalFrame::Binary(vec![3, 4]), None),
        TerminalAction::Write(vec![3, 4])
    );
    assert_eq!(terminal_action(TerminalFrame::Close, None), TerminalAction::Stop);
    assert_eq!(terminal_action(TerminalFrame::Other, None), TerminalAction::Ignore);
}
