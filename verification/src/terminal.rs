//! The web terminal: what each WebSocket frame from the browser asks of the
//! pseudo-terminal behind it.
use vstd::prelude::*;
use vstd::utf8::encode_utf8;
use crate::json::{JsonValue, JsonView};
use crate::text::{has_prefix, starts_with_str, str_eq, to_chars};

verus! {

/// A frame received from the browser's terminal socket.
#[derive(Debug)]
pub enum TerminalFrame {
    Text(String),
    Binary(Vec<u8>),
    Close,
    /// Ping, pong and other control frames.
    Other,
}

/// What the terminal does with a frame.
#[derive(Debug, PartialEq, Eq)]
pub enum TerminalAction {
    /// Set the terminal window size.
    Resize { cols: u16, rows: u16 },
    /// Write these bytes to the terminal's input.
    Write(Vec<u8>),
    /// The browser closed the socket: stop reading.
    Stop,
    /// Nothing to do.
    Ignore,
}

/// Model of a terminal action.
pub enum TerminalActionView {
    Resize(u16, u16),
    Write(Seq<u8>),
    Stop,
    Ignore,
}

impl View for TerminalAction {
    type V = TerminalActionView;

    open spec fn view(&self) -> TerminalActionView {
        match self {
            TerminalAction::Resize { cols, rows } => TerminalActionView::Resize(*cols, *rows),
            TerminalAction::Write(b) => TerminalActionView::Write(b@),
            TerminalAction::Stop => TerminalActionView::Stop,
            TerminalAction::Ignore => TerminalActionView::Ignore,
        }
    }
}

/// A window dimension: the integer member, or `default`, cut to 16 bits.
pub open spec fn dimension(v: JsonView, default: u64) -> u16 {
    match v.as_u64() {
        Some(n) => n as u16,
        None => default as u16,
    }
}

/// A text frame is a resize request when it opens with `{`, parses as JSON,
/// and its `type` member is `"resize"`.
pub open spec fn resize_request(text: Seq<char>, parsed: Option<JsonView>) -> Option<JsonView> {
    match parsed {
        Some(v) => if has_prefix(text, "{"@) && v.at("type"@).as_str() == Some("resize"@) {
            Some(v)
        } else {
            None
        },
        None => None,
    }
}

/// What a frame asks for, `parsed` being the JSON a text frame parses to
/// (if it does).
pub open spec fn action_for_text(text: Seq<char>, parsed: Option<JsonView>) -> TerminalActionView {
    match resize_request(text, parsed) {
        Some(v) => TerminalActionView::Resize(dimension(v.at("cols"@), 80), dimension(v.at("rows"@), 24)),
        None => TerminalActionView::Write(encode_utf8(text)),
    }
}

fn dimension_of(v: &JsonValue, key: &str, default: u64) -> (r: u16)
    ensures
        r == dimension(v@.at(key@), default),
{
    match v.get_u64(key) {
        Some(n) => n as u16,
        None => default as u16,
    }
}

/// The action for a frame from the browser: a text frame that is a resize
/// request resizes the window (80 × 24 where a dimension is missing), any
/// other text or binary frame is written to the terminal, a close frame
/// stops, and control frames are ignored.
pub fn terminal_action(frame: TerminalFrame, parsed: Option<JsonValue>) -> (r: TerminalAction)
    ensures
        r@ == match frame {
            TerminalFrame::Text(t) => action_for_text(
                t@,
                match parsed {
                    Some(v) => Some(v@),
                    None => None,
                },
            ),
            TerminalFrame::Binary(b) => TerminalActionView::Write(b@),
            TerminalFrame::Close => TerminalActionView::Stop,
            TerminalFrame::Other => TerminalActionView::Ignore,
        },
{
    match frame {
        TerminalFrame::Text(t) => {
            let opens = starts_with_str(&to_chars(t.as_str()), "{");
            match parsed {
                Some(v) => {
                    let is_resize = match v.get_str("type") {
                        Some(s) => str_eq(s.as_str(), "resize"),
                        None => false,
                    };
                    if opens && is_resize {
                        let cols = dimension_of(&v, "cols", 80);
                        let rows = dimension_of(&v, "rows", 24);
                        return TerminalAction::Resize { cols, rows };
                    }
                },
                None => {},
            }
            TerminalAction::Write(t.as_str().as_bytes_vec())
        },
        TerminalFrame::Binary(b) => TerminalAction::Write(b),
        TerminalFrame::Close => TerminalAction::Stop,
        TerminalFrame::Other => TerminalAction::Ignore,
    }
}

} // verus!
