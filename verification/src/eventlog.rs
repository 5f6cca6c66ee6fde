//! Reading the event log: one-line summaries of logged events, the type
//! filter, the recent-events view, and the evolution history and counts.
use vstd::prelude::*;
use crate::json::{JsonValue, JsonView, elems_view};
use crate::dispatch::str_or;
use crate::text::{
    decimal, take_chars, trimmed, to_chars, trim, chars_eq, take_prefix, from_chars,
    decimal_string, str_eq, joined, strings_view, join_lines,
};

verus! {

/// A summary line of an event: text, or a sensor reading whose numbers the
/// caller formats.
#[derive(Debug)]
pub enum EventLine {
    Text(String),
    Sensor { node: String, reading: JsonValue },
}

/// Model of a summary line.
pub enum LineView {
    Text(Seq<char>),
    Sensor(Seq<char>, JsonView),
}

impl View for EventLine {
    type V = LineView;

    open spec fn view(&self) -> LineView {
        match self {
            EventLine::Text(s) => LineView::Text(s@),
            EventLine::Sensor { node, reading } => LineView::Sensor(node@, reading@),
        }
    }
}

/// An integer field, 0 when missing.
pub open spec fn num_or_zero(v: JsonView) -> u64 {
    match v.as_u64() {
        Some(n) => n,
        None => 0,
    }
}

/// The decimal text of an integer field (0 when missing).
pub open spec fn num_text(v: JsonView) -> Seq<char> {
    decimal(num_or_zero(v) as nat)
}

/// The number of elements of an array field, 0 otherwise.
pub open spec fn count_or_zero(v: JsonView) -> nat {
    match v.as_array() {
        Some(a) => a.len(),
        None => 0,
    }
}

/// The one-line summary of a logged event; `None` for streaming noise
/// (text and thinking deltas, tool results, turn ends) and for records
/// without a type.
pub open spec fn event_line(v: JsonView) -> Option<LineView> {
    match v.at("type"@).as_str() {
        None => None,
        Some(t) => if t == "agent_text"@ || t == "agent_thinking"@ || t == "tool_result"@ || t
            == "turn_complete"@ {
            None
        } else if t == "user_prompt"@ {
            Some(
                LineView::Text(
                    "Session "@ + num_text(v.at("session"@)) + ": user said '"@ + take_chars(
                        str_or(v.at("text"@), ""@),
                        120,
                    ) + "'"@,
                ),
            )
        } else if t == "tool_requested"@ {
            Some(
                LineView::Text(
                    "Session "@ + num_text(v.at("session"@)) + ": tool '"@ + str_or(
                        v.at("call"@).at("tool"@),
                        "?"@,
                    ) + "' called"@,
                ),
            )
        } else if t == "approval_pending"@ {
            Some(
                LineView::Text(
                    "Session "@ + num_text(v.at("session"@)) + ": tool '"@ + str_or(
                        v.at("call"@).at("tool"@),
                        "?"@,
                    ) + "' awaiting approval"@,
                ),
            )
        } else if t == "user_approval"@ {
            Some(
                LineView::Text(
                    "Session "@ + num_text(v.at("session"@)) + ": approval "@ + if v.at(
                        "granted"@,
                    ).as_bool() == Some(true) {
                        "granted"@
                    } else {
                        "denied"@
                    },
                ),
            )
        } else if t == "evolution_proposed"@ {
            Some(
                LineView::Text(
                    "Evolution proposed: "@ + str_or(v.at("proposal"@).at("kind"@), "?"@)
                        + " \u{2014} '"@ + str_or(v.at("proposal"@).at("reason"@), ""@) + "'"@,
                ),
            )
        } else if t == "evolution_applied"@ {
            Some(
                LineView::Text(
                    "Evolution applied: "@ + str_or(v.at("proposal"@).at("kind"@), "?"@)
                        + " \u{2014} '"@ + str_or(v.at("proposal"@).at("reason"@), ""@) + "'"@,
                ),
            )
        } else if t == "evolution_rolled_back"@ {
            Some(LineView::Text("Evolution rolled back (id="@ + num_text(v.at("id"@)) + ")"@))
        } else if t == "plugin_up"@ {
            Some(
                LineView::Text(
                    "Plugin '"@ + str_or(v.at("plugin"@), "?"@) + "' started ("@ + decimal(
                        count_or_zero(v.at("tools"@)),
                    ) + " tools)"@,
                ),
            )
        } else if t == "plugin_down"@ {
            Some(LineView::Text("Plugin '"@ + str_or(v.at("plugin"@), "?"@) + "' stopped"@))
        } else if t == "wake_triggered"@ {
            Some(LineView::Text("Wake word triggered"@))
        } else if t == "spawn_agent"@ {
            Some(
                LineView::Text(
                    "Session "@ + num_text(v.at("parent"@)) + ": spawned sub-agent \u{2014} '"@
                        + take_chars(str_or(v.at("prompt"@), ""@), 80) + "'"@,
                ),
            )
        } else if t == "sub_agent_started"@ {
            Some(
                LineView::Text(
                    "Sub-agent "@ + num_text(v.at("child"@)) + " started (parent: "@ + num_text(
                        v.at("parent"@),
                    ) + ")"@,
                ),
            )
        } else if t == "sensor_reading"@ {
            Some(LineView::Sensor(str_or(v.at("node_id"@), "?"@), v.at("reading"@)))
        } else if t == "council_started"@ {
            Some(
                LineView::Text(
                    "Council '"@ + str_or(v.at("id"@), "?"@) + "' started: topic='"@ + str_or(
                        v.at("topic"@),
                        ""@,
                    ) + "'"@,
                ),
            )
        } else if t == "council_complete"@ {
            Some(
                LineView::Text(
                    "Council '"@ + str_or(v.at("id"@), "?"@) + "' complete: '"@ + take_chars(
                        str_or(v.at("synthesis"@), ""@),
                        100,
                    ) + "'"@,
                ),
            )
        } else if t == "agent_message"@ {
            Some(
                LineView::Text(
                    "Agent "@ + num_text(v.at("from"@)) + " \u{2192} Agent "@ + num_text(
                        v.at("to"@),
                    ) + ": '"@ + take_chars(str_or(v.at("body"@), ""@), 80) + "'"@,
                ),
            )
        } else {
            Some(LineView::Text("["@ + t + "]"@))
        },
    }
}

// ── field access ────────────────────────────────────────────────────────────

/// `v[key]` (Null when absent).
fn field<'a>(v: &'a JsonValue, key: &str, null: &'a JsonValue) -> (r: &'a JsonValue)
    requires
        null@ == JsonView::Null,
    ensures
        r@ == v@.at(key@),
{
    match v.get(key) {
        Some(x) => x,
        None => null,
    }
}

/// A string field, or `default`.
fn text_or(v: &JsonValue, default: &str) -> (r: String)
    ensures
        r@ == str_or(v@, default@),
{
    match v.as_str() {
        Some(s) => s.clone(),
        None => default.to_owned(),
    }
}

/// The decimal text of an integer field (0 when missing).
fn num_field(v: &JsonValue) -> (r: String)
    ensures
        r@ == num_text(v@),
{
    let n = match v.as_u64() {
        Some(n) => n,
        None => 0,
    };
    decimal_string(n)
}

/// The first `n` characters of a string field (or of `default`).
fn text_prefix(v: &JsonValue, default: &str, n: usize) -> (r: String)
    ensures
        r@ == take_chars(str_or(v@, default@), n as nat),
{
    let s = text_or(v, default);
    let chars = to_chars(s.as_str());
    let p = take_prefix(&chars, n);
    from_chars(&p)
}

/// The one-line summary of a logged event (`None` for streaming noise).
pub fn format_event_line(v: &JsonValue) -> (r: Option<EventLine>)
    ensures
        match r {
            Some(line) => event_line(v@) == Some(line@),
            None => event_line(v@) is None,
        },
{
    let null = JsonValue::Null;
    let t = match field(v, "type", &null).as_str() {
        Some(t) => t.as_str(),
        None => return None,
    };
    if str_eq(t, "agent_text") || str_eq(t, "agent_thinking") || str_eq(t, "tool_result")
        || str_eq(t, "turn_complete") {
        return None;
    }
    let line = if str_eq(t, "user_prompt") {
        String::from_str("Session ").concat(num_field(field(v, "session", &null)).as_str()).concat(
            ": user said '",
        ).concat(text_prefix(field(v, "text", &null), "", 120).as_str()).concat("'")
    } else if str_eq(t, "tool_requested") {
        let call = field(v, "call", &null);
        String::from_str("Session ").concat(num_field(field(v, "session", &null)).as_str()).concat(
            ": tool '",
        ).concat(text_or(field(call, "tool", &null), "?").as_str()).concat("' called")
    } else if str_eq(t, "approval_pending") {
        let call = field(v, "call", &null);
        String::from_str("Session ").concat(num_field(field(v, "session", &null)).as_str()).concat(
            ": tool '",
        ).concat(text_or(field(call, "tool", &null), "?").as_str()).concat("' awaiting approval")
    } else if str_eq(t, "user_approval") {
        let word = if field(v, "granted", &null).as_bool() == Some(true) {
            "granted"
        } else {
            "denied"
        };
        String::from_str("Session ").concat(num_field(field(v, "session", &null)).as_str()).concat(
            ": approval ",
        ).concat(word)
    } else if str_eq(t, "evolution_proposed") {
        let p = field(v, "proposal", &null);
        String::from_str("Evolution proposed: ").concat(
            text_or(field(p, "kind", &null), "?").as_str(),
        ).concat(" \u{2014} '").concat(text_or(field(p, "reason", &null), "").as_str()).concat("'")
    } else if str_eq(t, "evolution_applied") {
        let p = field(v, "proposal", &null);
        String::from_str("Evolution applied: ").concat(
            text_or(field(p, "kind", &null), "?").as_str(),
        ).concat(" \u{2014} '").concat(text_or(field(p, "reason", &null), "").as_str()).concat("'")
    } else if str_eq(t, "evolution_rolled_back") {
        String::from_str("Evolution rolled back (id=").concat(
            num_field(field(v, "id", &null)).as_str(),
        ).concat(")")
    } else if str_eq(t, "plugin_up") {
        let n: u64 = match field(v, "tools", &null).as_array() {
            Some(a) => a.len() as u64,
            None => 0,
        };
        String::from_str("Plugin '").concat(text_or(field(v, "plugin", &null), "?").as_str()).concat(
            "' started (",
        ).concat(decimal_string(n).as_str()).concat(" tools)")
    } else if str_eq(t, "plugin_down") {
        String::from_str("Plugin '").concat(text_or(field(v, "plugin", &null), "?").as_str()).concat(
            "' stopped",
        )
    } else if str_eq(t, "wake_triggered") {
        String::from_str("Wake word triggered")
    } else if str_eq(t, "spawn_agent") {
        String::from_str("Session ").concat(num_field(field(v, "parent", &null)).as_str()).concat(
            ": spawned sub-agent \u{2014} '",
        ).concat(text_prefix(field(v, "prompt", &null), "", 80).as_str()).concat("'")
    } else if str_eq(t, "sub_agent_started") {
        String::from_str("Sub-agent ").concat(num_field(field(v, "child", &null)).as_str()).concat(
            " started (parent: ",
        ).concat(num_field(field(v, "parent", &null)).as_str()).concat(")")
    } else if str_eq(t, "sensor_reading") {
        let node = text_or(field(v, "node_id", &null), "?");
        let reading = field(v, "reading", &null).deep_copy();
        return Some(EventLine::Sensor { node, reading });
    } else if str_eq(t, "council_started") {
        String::from_str("Council '").concat(text_or(field(v, "id", &null), "?").as_str()).concat(
            "' started: topic='",
        ).concat(text_or(field(v, "topic", &null), "").as_str()).concat("'")
    } else if str_eq(t, "council_complete") {
        String::from_str("Council '").concat(text_or(field(v, "id", &null), "?").as_str()).concat(
            "' complete: '",
        ).concat(text_prefix(field(v, "synthesis", &null), "", 100).as_str()).concat("'")
    } else if str_eq(t, "agent_message") {
        String::from_str("Agent ").concat(num_field(field(v, "from", &null)).as_str()).concat(
            " \u{2192} Agent ",
        ).concat(num_field(field(v, "to", &null)).as_str()).concat(": '").concat(
            text_prefix(field(v, "body", &null), "", 80).as_str(),
        ).concat("'")
    } else {
        String::from_str("[").concat(t).concat("]")
    };
    Some(EventLine::Text(line))
}

// ── the type filter ─────────────────────────────────────────────────────────

/// `types[i..j]` is one of the comma-separated pieces of `types`.
pub open spec fn is_piece(types: Seq<char>, i: int, j: int) -> bool {
    &&& 0 <= i <= j <= types.len()
    &&& (i == 0 || types[i - 1] == ',')
    &&& (j == types.len() || types[j] == ',')
    &&& forall|k: int| i <= k < j ==> types[k] != ','
}

/// `t` is one of the comma-separated, trimmed names in `types`.
pub open spec fn in_type_list(types: Seq<char>, t: Seq<char>) -> bool {
    exists|i: int, j: int|
        #![trigger is_piece(types, i, j)]
        is_piece(types, i, j) && trimmed(types.subrange(i, j)) == t
}

/// Whether the trimmed piece `s[start..end]` is `t`.
fn piece_is(s: &Vec<char>, start: usize, end: usize, t: &Vec<char>) -> (r: bool)
    requires
        start <= end <= s@.len(),
    ensures
        r == (trimmed(s@.subrange(start as int, end as int)) == t@),
{
    let mut piece: Vec<char> = Vec::new();
    let mut x: usize = start;
    while x < end
        invariant
            start <= x <= end <= s@.len(),
            piece@ == s@.subrange(start as int, x as int),
        decreases end - x,
    {
        piece.push(s[x]);
        x = x + 1;
        assert(piece@ =~= s@.subrange(start as int, x as int));
    }
    let tp = trim(&piece);
    chars_eq(&tp, t)
}

/// Whether `t` is one of the comma-separated, trimmed names in `types`.
pub fn type_listed(types: &str, t: &str) -> (r: bool)
    ensures
        r == in_type_list(types@, t@),
{
    let s = to_chars(types);
    let tv = to_chars(t);
    let n = s.len();
    let mut start: usize = 0;
    let mut k: usize = 0;
    while k < n
        invariant
            n == s@.len(),
            s@ == types@,
            tv@ == t@,
            start <= k <= n,
            start == 0 || s@[start - 1] == ',',
            forall|x: int| start <= x < k ==> s@[x] != ',',
            forall|i: int, j: int|
                #![trigger is_piece(s@, i, j)]
                is_piece(s@, i, j) && i < start ==> trimmed(s@.subrange(i, j)) != tv@,
        decreases n - k,
    {
        if s[k] == ',' {
            if piece_is(&s, start, k, &tv) {
                assert(is_piece(s@, start as int, k as int));
                assert(trimmed(types@.subrange(start as int, k as int)) == t@);
                return true;
            }
            proof {
                assert forall|i: int, j: int|
                    #![trigger is_piece(s@, i, j)]
                    is_piece(s@, i, j) && i < k + 1 implies trimmed(s@.subrange(i, j)) != tv@ by {
                    if i >= start {
                        if i > start {
                            assert(s@[i - 1] == ',');
                            assert(false);
                        }
                        if j > k {
                            assert(s@[k as int] != ',');
                            assert(false);
                        }
                        if j < k {
                            assert(s@[j] == ',');
                            assert(false);
                        }
                    }
                }
            }
            start = k + 1;
        }
        k = k + 1;
    }
    if piece_is(&s, start, n, &tv) {
        assert(is_piece(s@, start as int, n as int));
        assert(trimmed(types@.subrange(start as int, n as int)) == t@);
        return true;
    }
    proof {
        assert forall|i: int, j: int| is_piece(s@, i, j) implies trimmed(s@.subrange(i, j)) != tv@ by {
            if i >= start {
                if i > start {
                    assert(s@[i - 1] == ',');
                    assert(false);
                }
                if j < n {
                    assert(s@[j] == ',');
                    assert(false);
                }
            }
        }
    }
    false
}

// ── recent events ───────────────────────────────────────────────────────────

/// The event type of a record ("" when it has none).
pub open spec fn event_type(v: JsonView) -> Seq<char> {
    str_or(v.at("type"@), ""@)
}

/// Streaming events left out of the recent-events view.
pub open spec fn is_noise(t: Seq<char>) -> bool {
    t == "agent_text"@ || t == "agent_thinking"@ || t == "tool_result"@ || t == "turn_complete"@
}

/// A record passes the optional type filter.
pub open spec fn passes_filter(v: JsonView, types: Option<Seq<char>>) -> bool {
    match types {
        Some(ts) => in_type_list(ts, event_type(v)),
        None => true,
    }
}

/// A record kept in the recent-events view.
pub open spec fn recent_kept(types: Option<Seq<char>>) -> spec_fn(JsonView) -> bool {
    |v: JsonView| !is_noise(event_type(v)) && passes_filter(v, types)
}

/// The last `max` elements of `s`.
pub open spec fn last_n<A>(s: Seq<A>, max: nat) -> Seq<A> {
    if s.len() > max {
        s.subrange(s.len() - max, s.len() as int)
    } else {
        s
    }
}

/// The optional type filter, as a sequence.
pub open spec fn opt_view(t: Option<&str>) -> Option<Seq<char>> {
    match t {
        Some(s) => Some(s@),
        None => None,
    }
}

fn record_type(v: &JsonValue) -> (r: String)
    ensures
        r@ == event_type(v@),
{
    match v.get_str("type") {
        Some(s) => s.clone(),
        None => "".to_owned(),
    }
}

fn passes(v: &JsonValue, types: Option<&str>) -> (r: bool)
    ensures
        r == passes_filter(v@, opt_view(types)),
{
    match types {
        Some(ts) => {
            let t = record_type(v);
            type_listed(ts, t.as_str())
        },
        None => true,
    }
}

/// The recent-events view: the records that are not streaming noise and
/// pass the type filter, at most the last `max`.
pub fn recent_events(records: &Vec<JsonValue>, types: Option<&str>, max: usize) -> (r: Vec<JsonValue>)
    ensures
        elems_view(r@) == last_n(elems_view(records@).filter(recent_kept(opt_view(types))), max as nat),
{
    let ghost keep = recent_kept(opt_view(types));
    let ghost src = elems_view(records@);
    let mut kept: Vec<JsonValue> = Vec::new();
    let mut i: usize = 0;
    proof {
        reveal(Seq::filter);
        assert(src.take(0) =~= Seq::<JsonView>::empty());
        assert(elems_view(kept@) =~= src.take(0).filter(keep));
    }
    while i < records.len()
        invariant
            i <= records@.len(),
            src == elems_view(records@),
            keep == recent_kept(opt_view(types)),
            elems_view(kept@) == src.take(i as int).filter(keep),
        decreases records@.len() - i,
    {
        let ghost before = kept@;
        let t = record_type(&records[i]);
        let keep_it = !(str_eq(t.as_str(), "agent_text") || str_eq(t.as_str(), "agent_thinking")
            || str_eq(t.as_str(), "tool_result") || str_eq(t.as_str(), "turn_complete")) && passes(
            &records[i],
            types,
        );
        proof {
            reveal(Seq::filter);
            assert(src.take(i + 1).drop_last() =~= src.take(i as int));
            assert(src.take(i + 1).last() == records@[i as int]@);
            assert(keep_it == keep(records@[i as int]@));
        }
        if keep_it {
            kept.push(records[i].deep_copy());
            proof {
                assert(elems_view(kept@) =~= elems_view(before).push(records@[i as int]@));
            }
        }
        i = i + 1;
    }
    proof {
        assert(src.take(records@.len() as int) =~= src);
    }
    let total = kept.len();
    if total > max {
        let ghost kv = elems_view(kept@);
        let mut r: Vec<JsonValue> = Vec::new();
        let mut j: usize = total - max;
        while j < total
            invariant
                total == kept@.len(),
                max < total,
                total - max <= j <= total,
                kv == elems_view(kept@),
                elems_view(r@) == kv.subrange(total - max, j as int),
            decreases total - j,
        {
            let ghost before = r@;
            r.push(kept[j].deep_copy());
            j = j + 1;
            proof {
                assert(elems_view(r@) =~= elems_view(before).push(kv[j - 1]));
                assert(elems_view(r@) =~= kv.subrange(total - max, j as int));
            }
        }
        r
    } else {
        kept
    }
}

/// The records of applied evolutions, in order.
pub fn evolution_history(records: &Vec<JsonValue>) -> (r: Vec<JsonValue>)
    ensures
        elems_view(r@) == elems_view(records@).filter(
            |v: JsonView| event_type(v) == "evolution_applied"@,
        ),
{
    let ghost keep = |v: JsonView| event_type(v) == "evolution_applied"@;
    let ghost src = elems_view(records@);
    let mut kept: Vec<JsonValue> = Vec::new();
    let mut i: usize = 0;
    proof {
        reveal(Seq::filter);
        assert(src.take(0) =~= Seq::<JsonView>::empty());
        assert(elems_view(kept@) =~= src.take(0).filter(keep));
    }
    while i < records.len()
        invariant
            i <= records@.len(),
            src == elems_view(records@),
            forall|v: JsonView| #[trigger] keep(v) == (event_type(v) == "evolution_applied"@),
            elems_view(kept@) == src.take(i as int).filter(keep),
        decreases records@.len() - i,
    {
        let ghost before = kept@;
        let t = record_type(&records[i]);
        let keep_it = str_eq(t.as_str(), "evolution_applied");
        proof {
            reveal(Seq::filter);
            assert(src.take(i + 1).drop_last() =~= src.take(i as int));
            assert(src.take(i + 1).last() == records@[i as int]@);
            assert(keep_it == keep(records@[i as int]@));
        }
        if keep_it {
            kept.push(records[i].deep_copy());
            proof {
                assert(elems_view(kept@) =~= elems_view(before).push(records@[i as int]@));
            }
        }
        i = i + 1;
    }
    proof {
        assert(src.take(records@.len() as int) =~= src);
    }
    kept
}

// ── the query_event_log summary ─────────────────────────────────────────────

/// The summary lines of the records that pass the type filter.
pub open spec fn log_line(types: Option<Seq<char>>) -> spec_fn(JsonView) -> Option<LineView> {
    |v: JsonView|
        if passes_filter(v, types) {
            event_line(v)
        } else {
            None
        }
}

/// The summary lines of the records that pass the type filter, in order.
pub fn log_entries(records: &Vec<JsonValue>, types: Option<&str>) -> (r: Vec<EventLine>)
    ensures
        r@.map_values(|l: EventLine| l@) == elems_view(records@).filter_map(log_line(opt_view(types))),
{
    let ghost f = log_line(opt_view(types));
    let ghost src = elems_view(records@);
    let mut out: Vec<EventLine> = Vec::new();
    let mut i: usize = 0;
    proof {
        assert(src.take(0) =~= Seq::<JsonView>::empty());
        assert(out@.map_values(|l: EventLine| l@) =~= src.take(0).filter_map(f));
    }
    while i < records.len()
        invariant
            i <= records@.len(),
            src == elems_view(records@),
            f == log_line(opt_view(types)),
            out@.map_values(|l: EventLine| l@) == src.take(i as int).filter_map(f),
        decreases records@.len() - i,
    {
        let ghost before = out@;
        assert(src.take(i + 1).drop_last() =~= src.take(i as int));
        assert(src.take(i + 1).last() == records@[i as int]@);
        if passes(&records[i], types) {
            match format_event_line(&records[i]) {
                Some(line) => {
                    out.push(line);
                    assert(out@.map_values(|l: EventLine| l@) =~= before.map_values(
                        |l: EventLine| l@,
                    ) + seq![out@[out@.len() - 1]@]);
                },
                None => {},
            }
        }
        i = i + 1;
    }
    proof {
        assert(src.take(records@.len() as int) =~= src);
    }
    out
}


/// The text `query_event_log` answers with, for the summary lines of the
/// matching events (oldest first) over the last `hours` hours.
pub open spec fn log_summary(lines: Seq<Seq<char>>, hours: u64, max: nat) -> Seq<char> {
    let shown = last_n(lines, max);
    if shown.len() == 0 {
        "No matching events found in the last "@ + decimal(hours as nat) + "h."@
    } else {
        "Last "@ + decimal(hours as nat) + "h event log ("@ + decimal(lines.len()) + " events, showing "@
            + decimal(shown.len()) + "):\n\n"@ + joined(shown, "\n"@)
    }
}

/// The `query_event_log` answer for the summary `lines` (oldest first): at
/// most the last `max` are shown, with the total count.
pub fn summarize_log(lines: &Vec<String>, hours: u64, max: usize) -> (r: String)
    ensures
        r@ == log_summary(strings_view(lines@), hours, max as nat),
{
    let total = lines.len();
    let mut shown: Vec<String> = Vec::new();
    let start: usize = if total > max {
        total - max
    } else {
        0
    };
    let mut j: usize = start;
    while j < total
        invariant
            total == lines@.len(),
            start <= j <= total,
            strings_view(shown@) == strings_view(lines@).subrange(start as int, j as int),
        decreases total - j,
    {
        let ghost before = shown@;
        shown.push(lines[j].clone());
        j = j + 1;
        proof {
            assert(strings_view(shown@) =~= strings_view(before).push(lines@[j - 1]@));
            assert(strings_view(shown@) =~= strings_view(lines@).subrange(start as int, j as int));
        }
    }
    proof {
        let sv = strings_view(lines@);
        assert(strings_view(shown@) =~= last_n(sv, max as nat));
    }
    if shown.len() == 0 {
        String::from_str("No matching events found in the last ").concat(
            decimal_string(hours).as_str(),
        ).concat("h.")
    } else {
        let body = join_lines(&shown, "\n");
        String::from_str("Last ").concat(decimal_string(hours).as_str()).concat(
            "h event log (",
        ).concat(decimal_string(total as u64).as_str()).concat(" events, showing ").concat(
            decimal_string(shown.len() as u64).as_str(),
        ).concat("):\n\n").concat(body.as_str())
    }
}

/// How many daily log files cover the last `hours` hours: one per started
/// day, plus today.
pub fn days_back(hours: u64) -> (r: u64)
    requires
        hours <= 168,
    ensures
        r == (hours + 23) / 24 + 1,
{
    (hours + 23) / 24 + 1
}

// ── evolution statistics ────────────────────────────────────────────────────

/// The count of records of type `t`.
pub open spec fn count_type(records: Seq<JsonView>, t: Seq<char>) -> nat
    decreases records.len(),
{
    if records.len() == 0 {
        0
    } else {
        count_type(records.drop_last(), t) + if event_type(records.last()) == t {
            1nat
        } else {
            0nat
        }
    }
}

/// The kind of an applied evolution ("unknown" when it has none).
pub open spec fn applied_kind(v: JsonView) -> Seq<char> {
    str_or(v.at("proposal"@).at("kind"@), "unknown"@)
}

/// The number of applied evolutions of kind `k`.
pub open spec fn count_kind(records: Seq<JsonView>, k: Seq<char>) -> nat
    decreases records.len(),
{
    if records.len() == 0 {
        0
    } else {
        count_kind(records.drop_last(), k) + if event_type(records.last()) == "evolution_applied"@
            && applied_kind(records.last()) == k {
            1nat
        } else {
            0nat
        }
    }
}

/// The sum of the counts of a kind table.
pub open spec fn kind_total(v: Seq<(Seq<char>, u64)>) -> nat
    decreases v.len(),
{
    if v.len() == 0 {
        0
    } else {
        kind_total(v.drop_last()) + (v.last().1 as nat)
    }
}

proof fn lemma_kind_total_update(v: Seq<(Seq<char>, u64)>, i: int, x: (Seq<char>, u64))
    requires
        0 <= i < v.len(),
    ensures
        kind_total(v.update(i, x)) + v[i].1 == kind_total(v) + x.1,
    decreases v.len(),
{
    let w = v.update(i, x);
    if i == v.len() - 1 {
        assert(w.drop_last() =~= v.drop_last());
    } else {
        assert(w.drop_last() =~= v.drop_last().update(i, x));
        lemma_kind_total_update(v.drop_last(), i, x);
    }
}

/// Counts over the evolution records: applied, rolled back, and applied by kind.
#[derive(Debug)]
pub struct EvolutionCounts {
    pub applied_total: u64,
    pub rolledback_total: u64,
    /// Kind → number applied, each kind once, in order of first appearance.
    pub by_kind: Vec<(String, u64)>,
}

/// Counts the applied and rolled-back evolutions, and the applied ones by kind.
pub fn evolution_counts(records: &Vec<JsonValue>) -> (r: EvolutionCounts)
    requires
        records@.len() < u64::MAX,
    ensures
        r.applied_total == count_type(elems_view(records@), "evolution_applied"@),
        r.rolledback_total == count_type(elems_view(records@), "evolution_rolled_back"@),
        crate::assoc::distinct_keys(crate::assoc::keyed(r.by_kind@)),
        forall|k: Seq<char>|
            #[trigger] crate::assoc::lookup(crate::assoc::keyed(r.by_kind@), k) == if count_kind(
                elems_view(records@),
                k,
            ) > 0 {
                Some(count_kind(elems_view(records@), k) as u64)
            } else {
                None
            },
        kind_total(crate::assoc::keyed(r.by_kind@)) == r.applied_total,
{
    let ghost src = elems_view(records@);
    let mut applied: u64 = 0;
    let mut rolled: u64 = 0;
    let mut by_kind: Vec<(String, u64)> = Vec::new();
    let mut i: usize = 0;
    let null = JsonValue::Null;
    while i < records.len()
        invariant
            i <= records@.len(),
            records@.len() < u64::MAX,
            null@ == JsonView::Null,
            src == elems_view(records@),
            applied == count_type(src.take(i as int), "evolution_applied"@),
            rolled == count_type(src.take(i as int), "evolution_rolled_back"@),
            applied <= i,
            rolled <= i,
            crate::assoc::distinct_keys(crate::assoc::keyed(by_kind@)),
            forall|k: Seq<char>|
                #[trigger] crate::assoc::lookup(crate::assoc::keyed(by_kind@), k) == if count_kind(
                    src.take(i as int),
                    k,
                ) > 0 {
                    Some(count_kind(src.take(i as int), k) as u64)
                } else {
                    None
                },
            forall|k: Seq<char>| #[trigger] count_kind(src.take(i as int), k) <= i,
            kind_total(crate::assoc::keyed(by_kind@)) == applied,
        decreases records@.len() - i,
    {
        let ghost pre = src.take(i as int);
        let ghost cur = src.take(i + 1);
        assert(cur.drop_last() =~= pre);
        assert(cur.last() == records@[i as int]@);
        let rec = &records[i];
        let t = record_type(rec);
        let ghost before = by_kind@;
        if str_eq(t.as_str(), "evolution_applied") {
            applied = applied + 1;
            proof {
                reveal_strlit("evolution_applied");
                reveal_strlit("evolution_rolled_back");
                assert("evolution_applied"@[10] != "evolution_rolled_back"@[10]);
            }
            let kind = text_or(field(field(rec, "proposal", &null), "kind", &null), "unknown");
            let ghost kv = kind@;
            let old_n: u64 = match crate::assoc::find_key(&by_kind, kind.as_str()) {
                Some(j) => {
                    proof {
                        crate::assoc::lemma_lookup_at(crate::assoc::keyed(by_kind@), j as int);
                    }
                    by_kind[j].1
                },
                None => 0,
            };
            proof {
                assert(count_kind(pre, kv) <= i);
                if count_kind(pre, kv) == 0 {
                    assert(crate::assoc::lookup(crate::assoc::keyed(by_kind@), kv) is None);
                }
            }
            let ghost kb = crate::assoc::keyed(by_kind@);
            crate::assoc::assoc_set(&mut by_kind, kind, old_n + 1);
            proof {
                let ka = crate::assoc::keyed(by_kind@);
                if crate::assoc::has_key(kb, kv) {
                    let j = choose|j: int| 0 <= j < before.len() && before[j].0@ == kv && ka == kb.update(
                        j,
                        (kv, (old_n + 1) as u64),
                    );
                    crate::assoc::lemma_lookup_at(kb, j);
                    assert(kb[j] == (before[j].0@, before[j].1));
                    lemma_kind_total_update(kb, j, (kv, (old_n + 1) as u64));
                } else {
                    if exists|j: int| 0 <= j < before.len() && before[j].0@ == kv && ka == kb.update(
                        j,
                        (kv, (old_n + 1) as u64),
                    ) {
                        let j = choose|j: int| 0 <= j < before.len() && before[j].0@ == kv && ka == kb.update(
                            j,
                            (kv, (old_n + 1) as u64),
                        );
                        assert(kb[j].0 == kv);
                    }
                    assert(ka == kb.push((kv, (old_n + 1) as u64)));
                    assert(ka.drop_last() =~= kb);
                    assert(crate::assoc::lookup(kb, kv) is None);
                }
                assert forall|k: Seq<char>|
                    #[trigger] crate::assoc::lookup(crate::assoc::keyed(by_kind@), k) == if count_kind(
                        cur,
                        k,
                    ) > 0 {
                        Some(count_kind(cur, k) as u64)
                    } else {
                        None
                    } by {
                    if k != kv {
                        assert(count_kind(cur, k) == count_kind(pre, k));
                    }
                }
                assert forall|k: Seq<char>| #[trigger] count_kind(cur, k) <= i + 1 by {
                    assert(count_kind(pre, k) <= i);
                }
            }
        } else {
            if str_eq(t.as_str(), "evolution_rolled_back") {
                rolled = rolled + 1;
            }
            proof {
                assert forall|k: Seq<char>| #[trigger] count_kind(cur, k) == count_kind(pre, k) by {}
                assert forall|k: Seq<char>| #[trigger] count_kind(cur, k) <= i + 1 by {
                    assert(count_kind(pre, k) <= i);
                }
            }
        }
        i = i + 1;
    }
    proof {
        assert(src.take(records@.len() as int) =~= src);
    }
    EvolutionCounts { applied_total: applied, rolledback_total: rolled, by_kind }
}

/// A `sub_agent_started` record is summarised with the new sub-agent's
/// id (its `child` field) after "Sub-agent " and its parent's id (its
/// `parent` field) after "parent: ", both in decimal.
pub proof fn law_sub_agent_started_line(v: JsonView, child: u64, parent: u64)
    requires
        v.at("type"@) == JsonView::Str("sub_agent_started"@),
        v.at("child"@).as_u64() == Some(child),
        v.at("parent"@).as_u64() == Some(parent),
    ensures
        event_line(v) == Some(
            LineView::Text(
                "Sub-agent "@ + decimal(child as nat) + " started (parent: "@ + decimal(parent as nat)
                    + ")"@,
            ),
        ),
{
    reveal_strlit("agent_text");
    reveal_strlit("agent_thinking");
    reveal_strlit("tool_result");
    reveal_strlit("turn_complete");
    reveal_strlit("user_prompt");
    reveal_strlit("tool_requested");
    reveal_strlit("approval_pending");
    reveal_strlit("user_approval");
    reveal_strlit("evolution_proposed");
    reveal_strlit("evolution_applied");
    reveal_strlit("evolution_rolled_back");
    reveal_strlit("plugin_up");
    reveal_strlit("plugin_down");
    reveal_strlit("wake_triggered");
    reveal_strlit("spawn_agent");
    reveal_strlit("sub_agent_started");
    let t = "sub_agent_started"@;
    assert(t.len() == 17);
    assert(t != "agent_text"@) by { assert("agent_text"@.len() == 10); }
    assert(t != "agent_thinking"@) by { assert("agent_thinking"@.len() == 14); }
    assert(t != "tool_result"@) by { assert("tool_result"@.len() == 11); }
    assert(t != "turn_complete"@) by { assert("turn_complete"@.len() == 13); }
    assert(t != "user_prompt"@) by { assert("user_prompt"@.len() == 11); }
    assert(t != "tool_requested"@) by { assert("tool_requested"@.len() == 14); }
    assert(t != "approval_pending"@) by { assert("approval_pending"@.len() == 16); }
    assert(t != "user_approval"@) by { assert("user_approval"@.len() == 13); }
    assert(t != "evolution_proposed"@) by { assert("evolution_proposed"@.len() == 18); }
    assert(t != "evolution_applied"@) by { assert(t[0] != "evolution_applied"@[0]); }
    assert(t != "evolution_rolled_back"@) by { assert("evolution_rolled_back"@.len() == 21); }
    assert(t != "plugin_up"@) by { assert("plugin_up"@.len() == 9); }
    assert(t != "plugin_down"@) by { assert("plugin_down"@.len() == 11); }
    assert(t != "wake_triggered"@) by { assert("wake_triggered"@.len() == 14); }
    assert(t != "spawn_agent"@) by { assert("spawn_agent"@.len() == 11); }
}

} // verus!
