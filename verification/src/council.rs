//! Councils: the agents a `convene_council` call asks for, the checks it
//! must pass before a council runs, and the records the gateway serves.
use vstd::prelude::*;
use crate::dispatch::str_or;
use crate::json::{JsonValue, JsonView, elems_view, member};
use crate::text::{decimal, decimal_string, str_eq};
use crate::types::{ActionId, Event, SessionId, ToolOutput};

verus! {

/// One council member: an id, a persona (empty for the built-in persona of
/// that id), and optional backend, model and display colour.
#[derive(Debug)]
pub struct CouncilAgentDef {
    pub id: String,
    pub persona: String,
    pub backend: Option<String>,
    pub model: Option<String>,
    pub color: Option<String>,
}

/// Model of a council member.
pub struct AgentDefView {
    pub id: Seq<char>,
    pub persona: Seq<char>,
    pub backend: Option<Seq<char>>,
    pub model: Option<Seq<char>>,
    pub color: Option<Seq<char>>,
}

/// An optional string, as a sequence.
pub open spec fn opt_str(o: Option<String>) -> Option<Seq<char>> {
    match o {
        Some(s) => Some(s@),
        None => None,
    }
}

impl View for CouncilAgentDef {
    type V = AgentDefView;

    open spec fn view(&self) -> AgentDefView {
        AgentDefView {
            id: self.id@,
            persona: self.persona@,
            backend: opt_str(self.backend),
            model: opt_str(self.model),
            color: opt_str(self.color),
        }
    }
}

/// The models of a list of council members.
pub open spec fn defs_view(v: Seq<CouncilAgentDef>) -> Seq<AgentDefView> {
    v.map_values(|d: CouncilAgentDef| d@)
}

/// An optional string member of an object.
pub open spec fn member_str(fields: Seq<(Seq<char>, JsonView)>, key: Seq<char>) -> Option<Seq<char>> {
    match member(fields, key) {
        Some(v) => v.as_str(),
        None => None,
    }
}

/// The council member a value describes: a bare string is an id with the
/// built-in persona; an object needs a string `id` and may give `persona`,
/// `backend`, `model` and `color`; anything else describes no member.
pub open spec fn agent_def_of(v: JsonView) -> Option<AgentDefView> {
    match v {
        JsonView::Str(id) => Some(
            AgentDefView { id, persona: Seq::empty(), backend: None, model: None, color: None },
        ),
        JsonView::Object(fields) => match member_str(fields, "id"@) {
            Some(id) => Some(
                AgentDefView {
                    id,
                    persona: match member_str(fields, "persona"@) {
                        Some(p) => p,
                        None => Seq::empty(),
                    },
                    backend: member_str(fields, "backend"@),
                    model: member_str(fields, "model"@),
                    color: member_str(fields, "color"@),
                },
            ),
            None => None,
        },
        _ => None,
    }
}

fn opt_member(v: &JsonValue, key: &str) -> (r: Option<String>)
    requires
        v@ is Object,
    ensures
        opt_str(r) == member_str(v@->Object_0, key@),
{
    match v.get_str(key) {
        Some(s) => Some(s.clone()),
        None => None,
    }
}

/// Reads one council member from a `convene_council` argument.
pub fn parse_agent_def(v: &JsonValue) -> (r: Option<CouncilAgentDef>)
    ensures
        match r {
            Some(d) => agent_def_of(v@) == Some(d@),
            None => agent_def_of(v@) is None,
        },
{
    match v {
        JsonValue::Str(id) => Some(
            CouncilAgentDef {
                id: id.clone(),
                persona: String::new(),
                backend: None,
                model: None,
                color: None,
            },
        ),
        JsonValue::Object(_) => {
            let id = match opt_member(v, "id") {
                Some(id) => id,
                None => return None,
            };
            let persona = match opt_member(v, "persona") {
                Some(p) => p,
                None => String::new(),
            };
            Some(
                CouncilAgentDef {
                    id,
                    persona,
                    backend: opt_member(v, "backend"),
                    model: opt_member(v, "model"),
                    color: opt_member(v, "color"),
                },
            )
        },
        _ => None,
    }
}

/// The members a list of values describes, in order, skipping values that
/// describe none.
pub open spec fn agent_defs_of(vs: Seq<JsonView>) -> Seq<AgentDefView>
    decreases vs.len(),
{
    if vs.len() == 0 {
        Seq::empty()
    } else {
        let rest = agent_defs_of(vs.drop_last());
        match agent_def_of(vs.last()) {
            Some(d) => rest.push(d),
            None => rest,
        }
    }
}

/// What becomes of a `convene_council` call.
#[derive(Debug)]
pub enum CouncilStart {
    /// The call is refused: emit this failed result to the caller.
    Refused(Event),
    /// Run a council.
    Run { council_id: String, topic: String, agents: Vec<CouncilAgentDef>, max_rounds: u32 },
}

/// The failed result a refused council call gets.
pub open spec fn refusal_of(ev: Event, session: SessionId, call: ActionId, msg: Seq<char>) -> bool {
    match ev {
        Event::ToolResult { session: s, call: c, output } => s == session && c == call && !output.ok
            && output.content@ == JsonView::Str(msg),
        _ => false,
    }
}

/// The `agents` argument, if it is an array.
pub open spec fn agents_arg(args: JsonView) -> Option<Seq<JsonView>> {
    args.at("agents"@).as_array()
}

/// Takes a `convene_council` call: the council counter moves on and names
/// the council `c<n>`. The call is refused when `agents` is not an array,
/// or describes no member; otherwise the council runs on the `topic` (""
/// when missing) with the described members and `max_rounds` rounds (3 when
/// missing, cut to 32 bits).
pub fn next_council(counter: &mut u64, session: SessionId, call_id: ActionId, args: &JsonValue) -> (r:
    CouncilStart)
    requires
        *old(counter) < u64::MAX,
    ensures
        *final(counter) == *old(counter) + 1,
        match agents_arg(args@) {
            None => r matches CouncilStart::Refused(ev) && refusal_of(
                ev,
                session,
                call_id,
                "convene_council: 'agents' must be an array"@,
            ),
            Some(vs) => if agent_defs_of(vs).len() == 0 {
                r matches CouncilStart::Refused(ev) && refusal_of(
                    ev,
                    session,
                    call_id,
                    "convene_council: at least one agent required"@,
                )
            } else {
                r matches CouncilStart::Run { council_id, topic, agents, max_rounds }
                    && council_id@ == "c"@ + decimal(*final(counter) as nat) && topic@ == str_or(
                    args@.at("topic"@),
                    ""@,
                ) && defs_view(agents@) == agent_defs_of(vs) && max_rounds == (match args@.at(
                    "max_rounds"@,
                ).as_u64() {
                    Some(n) => n,
                    None => 3,
                }) as u32
            },
        },
{
    *counter = *counter + 1;
    let council_id = String::from_str("c").concat(decimal_string(*counter).as_str());
    let topic = match args.get_str("topic") {
        Some(t) => t.clone(),
        None => "".to_owned(),
    };
    let rounds: u64 = match args.get_u64("max_rounds") {
        Some(n) => n,
        None => 3,
    };
    let max_rounds: u32 = rounds as u32;
    let null = JsonValue::Null;
    let arr = match args.get("agents") {
        Some(a) => a,
        None => &null,
    };
    let list = match arr.as_array() {
        Some(l) => l,
        None => {
            let output = ToolOutput {
                ok: false,
                content: JsonValue::string("convene_council: 'agents' must be an array"),
            };
            return CouncilStart::Refused(Event::ToolResult { session, call: call_id, output });
        },
    };
    let ghost vs = elems_view(list@);
    let mut agents: Vec<CouncilAgentDef> = Vec::new();
    let mut i: usize = 0;
    proof {
        assert(vs.take(0) =~= Seq::<JsonView>::empty());
    }
    while i < list.len()
        invariant
            i <= list@.len(),
            vs == elems_view(list@),
            defs_view(agents@) == agent_defs_of(vs.take(i as int)),
        decreases list@.len() - i,
    {
        let ghost before = agents@;
        proof {
            assert(vs.take(i + 1).drop_last() =~= vs.take(i as int));
            assert(vs.take(i + 1).last() == list@[i as int]@);
        }
        match parse_agent_def(&list[i]) {
            Some(d) => {
                agents.push(d);
                proof {
                    assert(defs_view(agents@) =~= defs_view(before).push(agents@.last()@));
                }
            },
            None => {},
        }
        i = i + 1;
    }
    proof {
        assert(vs.take(list@.len() as int) =~= vs);
        reveal_strlit("");
    }
    if agents.len() == 0 {
        let output = ToolOutput {
            ok: false,
            content: JsonValue::string("convene_council: at least one agent required"),
        };
        return CouncilStart::Refused(Event::ToolResult { session, call: call_id, output });
    }
    CouncilStart::Run { council_id, topic, agents, max_rounds }
}

/// A council as the gateway lists it.
#[derive(Debug)]
pub struct CouncilRecord {
    pub id: String,
    pub topic: String,
    pub agents: Vec<CouncilAgentDef>,
    /// "running" or "complete".
    pub status: String,
    pub rounds: u32,
    pub synthesis: String,
}

/// The first council with this id, if any.
pub fn find_council<'a>(records: &'a Vec<CouncilRecord>, id: &str) -> (r: Option<&'a CouncilRecord>)
    ensures
        match r {
            Some(c) => exists|i: int|
                0 <= i < records@.len() && records@[i] == *c && c.id@ == id@ && forall|j: int|
                    0 <= j < i ==> #[trigger] records@[j].id@ != id@,
            None => forall|j: int| 0 <= j < records@.len() ==> #[trigger] records@[j].id@ != id@,
        },
{
    let mut i: usize = 0;
    while i < records.len()
        invariant
            i <= records@.len(),
            forall|j: int| 0 <= j < i ==> #[trigger] records@[j].id@ != id@,
        decreases records@.len() - i,
    {
        if str_eq(records[i].id.as_str(), id) {
            return Some(&records[i]);
        }
        i = i + 1;
    }
    None
}

} // verus!
