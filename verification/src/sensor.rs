//! The sensor bridge: where a node connects, what a reading frame holds,
//! and how its settings and raw readings are read.
use vstd::prelude::*;
use crate::json::{JsonValue, JsonView, NumberView, pairs_view};
use crate::text::{to_chars, trim, trimmed, parse_unsigned, parsed_unsigned, parse_i64, parsed_signed};

verus! {

#[verifier::external_type_specification]
#[verifier::external_body]
pub struct ExSystemTime(std::time::SystemTime);

/// `SystemTime::now` from std: the system clock's current reading.
#[verifier::external_body]
fn clock_now() -> std::time::SystemTime {
    std::time::SystemTime::now()
}

/// `SystemTime::duration_since` from std, taken from the Unix epoch: the
/// time elapsed since then, `None` when the clock reads earlier.
#[verifier::external_body]
fn since_epoch(t: &std::time::SystemTime) -> Option<std::time::Duration> {
    t.duration_since(std::time::UNIX_EPOCH).ok()
}

/// `Duration::as_secs` from std: the whole seconds of a duration.
#[verifier::external_body]
fn whole_secs(d: &std::time::Duration) -> u64 {
    d.as_secs()
}

/// Seconds since the Unix epoch by the system clock (0 when the clock reads
/// earlier). What it returns depends on the clock alone.
pub fn now_secs() -> u64 {
    match since_epoch(&clock_now()) {
        Some(d) => whole_secs(&d),
        None => 0,
    }
}

/// The frame a node sends for one reading.
pub open spec fn sensor_event_json(node_id: Seq<char>, kind: Seq<char>, reading: JsonView, timestamp: u64) -> JsonView {
    JsonView::Object(
        seq![
            ("type"@, JsonView::Str("sensor_reading"@)),
            ("node_id"@, JsonView::Str(node_id)),
            ("reading"@, reading),
            ("timestamp"@, JsonView::Number(NumberView::PosInt(timestamp))),
            ("kind"@, JsonView::Str(kind)),
        ],
    )
}

/// The frame for one reading taken at `timestamp`.
pub fn sensor_event(node_id: &str, kind: &str, reading: JsonValue, timestamp: u64) -> (r: JsonValue)
    ensures
        r@ == sensor_event_json(node_id@, kind@, reading@, timestamp),
{
    let ghost rv = reading@;
    let mut f: Vec<(String, JsonValue)> = Vec::new();
    f.push(("type".to_owned(), JsonValue::string("sensor_reading")));
    f.push(("node_id".to_owned(), JsonValue::string(node_id)));
    f.push(("reading".to_owned(), reading));
    f.push(("timestamp".to_owned(), JsonValue::uint(timestamp)));
    f.push(("kind".to_owned(), JsonValue::string(kind)));
    let ghost fv = pairs_view(f@);
    let r = JsonValue::object(f);
    proof {
        assert(fv =~= seq![
            ("type"@, JsonView::Str("sensor_reading"@)),
            ("node_id"@, JsonView::Str(node_id@)),
            ("reading"@, rv),
            ("timestamp"@, JsonView::Number(NumberView::PosInt(timestamp))),
            ("kind"@, JsonView::Str(kind@)),
        ]);
    }
    r
}

/// The frame for one reading taken now.
pub fn make_sensor_event(node_id: &str, kind: &str, payload: JsonValue) -> (r: JsonValue)
    ensures
        exists|t: u64| r@ == sensor_event_json(node_id@, kind@, payload@, t),
{
    let ghost pv = payload@;
    let t = now_secs();
    let r = sensor_event(node_id, kind, payload, t);
    assert(r@ == sensor_event_json(node_id@, kind@, pv, t));
    r
}

/// Where a node connects: the bridge endpoint of the gateway at `host`,
/// with the token when there is one.
pub open spec fn bridge_url_of(host: Seq<char>, token: Seq<char>) -> Seq<char> {
    if token.len() == 0 {
        "ws://"@ + host + "/sensor-bridge"@
    } else {
        "ws://"@ + host + "/sensor-bridge?token="@ + token
    }
}

/// Where a node connects.
pub fn bridge_url(host: &str, token: &str) -> (r: String)
    ensures
        r@ == bridge_url_of(host@, token@),
{
    if token.is_empty() {
        String::from_str("ws://").concat(host).concat("/sensor-bridge")
    } else {
        String::from_str("ws://").concat(host).concat("/sensor-bridge?token=").concat(token)
    }
}

/// The reading interval: the setting read as a number of seconds, 30 when
/// it is missing or unreadable.
pub fn interval_secs(setting: Option<&str>) -> (r: u64)
    ensures
        r == match setting {
            Some(s) => match parsed_unsigned(s@, u64::MAX as nat) {
                Some(n) => n as u64,
                None => 30,
            },
            None => 30,
        },
{
    match setting {
        Some(s) => {
            let cs = to_chars(s);
            match parse_unsigned(&cs, u64::MAX) {
                Some(n) => n,
                None => 30,
            }
        },
        None => 30,
    }
}

/// A thermal reading as the kernel writes it: trimmed, millidegrees as a
/// signed integer.
pub fn millidegrees(raw: &str) -> (r: Option<i64>)
    ensures
        match r {
            Some(n) => parsed_signed(trimmed(raw@)) == Some(n as int),
            None => parsed_signed(trimmed(raw@)) is None,
        },
{
    let cs = to_chars(raw);
    let t = trim(&cs);
    parse_i64(&t)
}

} // verus!
