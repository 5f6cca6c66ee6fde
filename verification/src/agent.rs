//! The agent router: root turns for user prompts, sub-agents with a depth
//! limit, cascading cancellation, and the tool list every turn sees.
use std::collections::HashMap;
use vstd::prelude::*;
use crate::assoc::{
    assoc_remove, assoc_set, distinct_keys, keyed, lookup, first_with, find_id,
    lemma_first_with_at, lemma_first_with_entry, lemma_first_with_none, lemma_first_with_push,
    lemma_first_with_update,
};
use crate::json::{JsonValue, JsonView, elems_view, pairs_view};
use crate::state::prompt_message;
use crate::tree::{walk_shape, child_of_earlier};
use crate::types::{
    ActionId, SessionId, PluginId, Event, ToolOutput, ToolSpec, ToolSpecView, Message,
    MessageView, ContentBlock, BlockView, blocks_view, messages_view, specs_view, ids_view,
    copy_messages,
};

verus! {

broadcast use vstd::std_specs::hash::group_hash_axioms;

// ── the final text of a sub-agent ───────────────────────────────────────────

/// The text blocks of a message, concatenated in order.
pub open spec fn text_of(blocks: Seq<BlockView>) -> Seq<char>
    decreases blocks.len(),
{
    if blocks.len() == 0 {
        Seq::empty()
    } else {
        text_of(blocks.drop_last()) + match blocks.last() {
            BlockView::Text(t) => t,
            _ => Seq::empty(),
        }
    }
}

/// The text of the last assistant message that has any text ("" when none
/// has).
pub open spec fn final_text(msgs: Seq<MessageView>) -> Seq<char>
    decreases msgs.len(),
{
    if msgs.len() == 0 {
        Seq::empty()
    } else {
        match msgs.last() {
            MessageView::Assistant(b) => if text_of(b).len() > 0 {
                text_of(b)
            } else {
                final_text(msgs.drop_last())
            },
            MessageView::User(_) => final_text(msgs.drop_last()),
        }
    }
}

/// The text blocks of `blocks`, concatenated.
fn joined_text(blocks: &Vec<ContentBlock>) -> (r: String)
    ensures
        r@ == text_of(blocks_view(blocks@)),
{
    let ghost bv = blocks_view(blocks@);
    let mut r = String::new();
    let mut i: usize = 0;
    proof {
        assert(bv.take(0) =~= Seq::<BlockView>::empty());
    }
    while i < blocks.len()
        invariant
            i <= blocks@.len(),
            bv == blocks_view(blocks@),
            r@ == text_of(bv.take(i as int)),
        decreases blocks@.len() - i,
    {
        proof {
            assert(bv.take(i + 1).drop_last() =~= bv.take(i as int));
            assert(bv.take(i + 1).last() == blocks@[i as int]@);
        }
        match &blocks[i] {
            ContentBlock::Text { text } => {
                r = r.concat(text.as_str());
            },
            _ => {
                proof {
                    assert(text_of(bv.take(i as int)) + Seq::<char>::empty() =~= text_of(
                        bv.take(i as int),
                    ));
                }
            },
        }
        i = i + 1;
    }
    proof {
        assert(bv.take(blocks@.len() as int) =~= bv);
    }
    r
}

/// The text a finished sub-agent hands back to its parent: the text of the
/// last assistant message that has any.
pub fn extract_final_text(history: &Vec<Message>) -> (r: String)
    ensures
        r@ == final_text(messages_view(history@)),
{
    let ghost mv = messages_view(history@);
    let mut i: usize = history.len();
    proof {
        assert(mv.take(i as int) =~= mv);
    }
    while i > 0
        invariant
            i <= history@.len(),
            mv == messages_view(history@),
            final_text(mv) == final_text(mv.take(i as int)),
        decreases i,
    {
        let ghost pre = mv.take(i as int);
        proof {
            assert(pre.drop_last() =~= mv.take(i - 1));
            assert(pre.last() == history@[i - 1]@);
        }
        match &history[i - 1] {
            Message::Assistant { content } => {
                let t = joined_text(content);
                if !t.as_str().is_empty() {
                    return t;
                }
            },
            _ => {},
        }
        i = i - 1;
    }
    String::new()
}

// ── the synthetic tools ─────────────────────────────────────────────────────

/// `{"type": ty, "description": desc}`.
pub open spec fn typed_view(ty: Seq<char>, desc: Seq<char>) -> JsonView {
    JsonView::Object(seq![("type"@, JsonView::Str(ty)), ("description"@, JsonView::Str(desc))])
}

/// `{"type": ty, "enum": options, "description": desc}`.
pub open spec fn choice_view(ty: Seq<char>, options: Seq<Seq<char>>, desc: Seq<char>) -> JsonView {
    JsonView::Object(
        seq![
            ("type"@, JsonView::Str(ty)),
            ("enum"@, JsonView::Array(options.map_values(|o: Seq<char>| JsonView::Str(o)))),
            ("description"@, JsonView::Str(desc)),
        ],
    )
}

/// An object schema with these properties and required names.
pub open spec fn schema_view(props: Seq<(Seq<char>, JsonView)>, required: Seq<Seq<char>>) -> JsonView {
    JsonView::Object(
        seq![
            ("type"@, JsonView::Str("object"@)),
            ("properties"@, JsonView::Object(props)),
            ("required"@, JsonView::Array(required.map_values(|o: Seq<char>| JsonView::Str(o)))),
        ],
    )
}

/// The description of `agent_spawn`.
pub open spec fn spawn_description() -> Seq<char> {
    "Spawn a focused sub-agent to handle a sub-task. Returns the sub-agent's final text output."@
}

/// The input schema of `agent_spawn`: a required `prompt` and an optional
/// `system` override.
pub open spec fn spawn_schema() -> JsonView {
    schema_view(
        seq![
            ("prompt"@, typed_view("string"@, "The task for the sub-agent to perform."@)),
            ("system"@, typed_view("string"@, "Optional system prompt override for the sub-agent."@)),
        ],
        seq!["prompt"@],
    )
}

/// The `agent_spawn` tool.
pub open spec fn spawn_tool() -> ToolSpecView {
    ToolSpecView { name: "agent_spawn"@, description: spawn_description(), input_schema: spawn_schema() }
}

fn typed(ty: &str, desc: &str) -> (r: JsonValue)
    ensures
        r@ == typed_view(ty@, desc@),
{
    let v = vec![
        ("type".to_owned(), JsonValue::string(ty)),
        ("description".to_owned(), JsonValue::string(desc)),
    ];
    let r = JsonValue::object(v);
    proof {
        assert(pairs_view(v@) =~= seq![
            ("type"@, JsonView::Str(ty@)),
            ("description"@, JsonView::Str(desc@)),
        ]);
    }
    r
}

fn names(v: &Vec<&str>) -> (r: JsonValue)
    ensures
        r@ == JsonView::Array(v@.map_values(|s: &str| s@).map_values(|o: Seq<char>| JsonView::Str(o))),
{
    let mut out: Vec<JsonValue> = Vec::new();
    let mut i: usize = 0;
    while i < v.len()
        invariant
            i <= v@.len(),
            out@.len() == i,
            forall|j: int| 0 <= j < i ==> #[trigger] out@[j]@ == JsonView::Str(v@[j]@),
        decreases v@.len() - i,
    {
        out.push(JsonValue::string(v[i]));
        i = i + 1;
    }
    let r = JsonValue::array(out);
    proof {
        assert(elems_view(out@) =~= v@.map_values(|s: &str| s@).map_values(
            |o: Seq<char>| JsonView::Str(o),
        ));
    }
    r
}

fn schema(props: Vec<(String, JsonValue)>, required: &Vec<&str>) -> (r: JsonValue)
    ensures
        r@ == schema_view(pairs_view(props@), required@.map_values(|s: &str| s@)),
{
    let p = JsonValue::object(props);
    let q = names(required);
    let v = vec![
        ("type".to_owned(), JsonValue::string("object")),
        ("properties".to_owned(), p),
        ("required".to_owned(), q),
    ];
    let r = JsonValue::object(v);
    proof {
        assert(pairs_view(v@) =~= seq![
            ("type"@, JsonView::Str("object"@)),
            ("properties"@, JsonView::Object(pairs_view(props@))),
            ("required"@, JsonView::Array(required@.map_values(|s: &str| s@).map_values(
                |o: Seq<char>| JsonView::Str(o),
            ))),
        ]);
    }
    r
}

/// The synthetic `agent_spawn` tool every turn is offered.
pub fn agent_spawn_spec() -> (r: ToolSpec)
    ensures
        r@ == spawn_tool(),
{
    let props = vec![
        ("prompt".to_owned(), typed("string", "The task for the sub-agent to perform.")),
        ("system".to_owned(), typed("string", "Optional system prompt override for the sub-agent.")),
    ];
    let required = vec!["prompt"];
    let ghost pv = pairs_view(props@);
    let input_schema = schema(props, &required);
    let r = ToolSpec {
        name: "agent_spawn".to_owned(),
        description: "Spawn a focused sub-agent to handle a sub-task. Returns the sub-agent's final text output.".to_owned(),
        input_schema,
    };
    proof {
        assert(pv =~= seq![
            ("prompt"@, typed_view("string"@, "The task for the sub-agent to perform."@)),
            ("system"@, typed_view("string"@, "Optional system prompt override for the sub-agent."@)),
        ]);
        assert(required@.map_values(|s: &str| s@) =~= seq!["prompt"@]);
    }
    r
}

/// The description of `propose_evolution`.
pub open spec fn propose_description() -> Seq<char> {
    "Propose a structural change to agentd: register or remove an MCP plugin, update a policy rule, update your own system prompt (soul.md), or hot-reload a subsystem. Every proposal is recorded as an event and flows through the approval engine before being applied."@
}

/// The input schema of `propose_evolution`: the kind of change and the
/// reason are required; the other fields belong to particular kinds.
pub open spec fn propose_schema() -> JsonView {
    schema_view(
        seq![
            ("kind"@, choice_view(
                "string"@,
                seq![
                    "register_mcp_server"@,
                    "unregister_mcp_server"@,
                    "update_policy_rule"@,
                    "update_system_prompt"@,
                    "hot_reload_subsystem"@,
                ],
                "The type of evolution to propose."@,
            )),
            ("name"@, typed_view(
                "string"@,
                "Plugin name (register_mcp_server / unregister_mcp_server)."@,
            )),
            ("command"@, typed_view(
                "string"@,
                "Shell command to start the MCP server (register_mcp_server)."@,
            )),
            ("env"@, typed_view(
                "object"@,
                "Environment variables for the MCP server (register_mcp_server)."@,
            )),
            ("tool_pattern"@, typed_view(
                "string"@,
                "Exact tool name or wildcard 'prefix.*' (update_policy_rule)."@,
            )),
            ("new_mode"@, choice_view(
                "string"@,
                seq!["suggest"@, "auto-edit"@, "yolo"@],
                "New approval mode (update_policy_rule)."@,
            )),
            ("content"@, typed_view(
                "string"@,
                "Full replacement text for /etc/agentd/soul.md (update_system_prompt)."@,
            )),
            ("subsystem"@, choice_view(
                "string"@,
                seq!["plugins"@, "policy"@, "agent"@, "gateway"@],
                "Subsystem to reload in-place (hot_reload_subsystem)."@,
            )),
            ("reason"@, typed_view("string"@, "Why this change is being proposed."@)),
        ],
        seq!["kind"@, "reason"@],
    )
}

/// The `propose_evolution` tool.
pub open spec fn propose_tool() -> ToolSpecView {
    ToolSpecView {
        name: "propose_evolution"@,
        description: propose_description(),
        input_schema: propose_schema(),
    }
}

fn choice(ty: &str, options: &Vec<&str>, desc: &str) -> (r: JsonValue)
    ensures
        r@ == choice_view(ty@, options@.map_values(|s: &str| s@), desc@),
{
    let e = names(options);
    let v = vec![
        ("type".to_owned(), JsonValue::string(ty)),
        ("enum".to_owned(), e),
        ("description".to_owned(), JsonValue::string(desc)),
    ];
    let r = JsonValue::object(v);
    proof {
        assert(pairs_view(v@) =~= seq![
            ("type"@, JsonView::Str(ty@)),
            ("enum"@, JsonView::Array(options@.map_values(|s: &str| s@).map_values(
                |o: Seq<char>| JsonView::Str(o),
            ))),
            ("description"@, JsonView::Str(desc@)),
        ]);
    }
    r
}

/// The synthetic `propose_evolution` tool every turn is offered.
pub fn propose_evolution_spec() -> (r: ToolSpec)
    ensures
        r@ == propose_tool(),
{
    let kinds = vec![
        "register_mcp_server",
        "unregister_mcp_server",
        "update_policy_rule",
        "update_system_prompt",
        "hot_reload_subsystem",
    ];
    let modes = vec!["suggest", "auto-edit", "yolo"];
    let subsystems = vec!["plugins", "policy", "agent", "gateway"];
    let props = vec![
        ("kind".to_owned(), choice("string", &kinds, "The type of evolution to propose.")),
        ("name".to_owned(), typed(
            "string",
            "Plugin name (register_mcp_server / unregister_mcp_server).",
        )),
        ("command".to_owned(), typed(
            "string",
            "Shell command to start the MCP server (register_mcp_server).",
        )),
        ("env".to_owned(), typed(
            "object",
            "Environment variables for the MCP server (register_mcp_server).",
        )),
        ("tool_pattern".to_owned(), typed(
            "string",
            "Exact tool name or wildcard 'prefix.*' (update_policy_rule).",
        )),
        ("new_mode".to_owned(), choice("string", &modes, "New approval mode (update_policy_rule).")),
        ("content".to_owned(), typed(
            "string",
            "Full replacement text for /etc/agentd/soul.md (update_system_prompt).",
        )),
        ("subsystem".to_owned(), choice(
            "string",
            &subsystems,
            "Subsystem to reload in-place (hot_reload_subsystem).",
        )),
        ("reason".to_owned(), typed("string", "Why this change is being proposed.")),
    ];
    let required = vec!["kind", "reason"];
    let ghost pv = pairs_view(props@);
    let input_schema = schema(props, &required);
    let r = ToolSpec {
        name: "propose_evolution".to_owned(),
        description: "Propose a structural change to agentd: register or remove an MCP plugin, update a policy rule, update your own system prompt (soul.md), or hot-reload a subsystem. Every proposal is recorded as an event and flows through the approval engine before being applied.".to_owned(),
        input_schema,
    };
    proof {
        assert(kinds@.map_values(|s: &str| s@) =~= seq![
            "register_mcp_server"@,
            "unregister_mcp_server"@,
            "update_policy_rule"@,
            "update_system_prompt"@,
            "hot_reload_subsystem"@,
        ]);
        assert(modes@.map_values(|s: &str| s@) =~= seq!["suggest"@, "auto-edit"@, "yolo"@]);
        assert(subsystems@.map_values(|s: &str| s@) =~= seq![
            "plugins"@,
            "policy"@,
            "agent"@,
            "gateway"@,
        ]);
        assert(required@.map_values(|s: &str| s@) =~= seq!["kind"@, "reason"@]);
        assert(pv =~= propose_schema()->Object_0[1].1->Object_0);
    }
    r
}

/// Every tool the registry holds, plugin by plugin, then `agent_spawn` and
/// `propose_evolution`.
pub open spec fn offered_tools(registry: Seq<(String, Vec<ToolSpec>)>) -> Seq<ToolSpecView> {
    registry.map_values(|e: (String, Vec<ToolSpec>)| specs_view(e.1@)).flatten().push(
        spawn_tool(),
    ).push(propose_tool())
}

/// The tools a new turn is offered: every plugin tool, then the two
/// synthetic ones.
pub fn gather_tools(registry: &Vec<(String, Vec<ToolSpec>)>) -> (r: Vec<ToolSpec>)
    ensures
        specs_view(r@) == offered_tools(registry@),
{
    let ghost lists = registry@.map_values(|e: (String, Vec<ToolSpec>)| specs_view(e.1@));
    let mut out: Vec<ToolSpec> = Vec::new();
    let mut i: usize = 0;
    proof {
        assert(lists.take(0) =~= Seq::<Seq<ToolSpecView>>::empty());
        assert(specs_view(out@) =~= lists.take(0).flatten());
    }
    while i < registry.len()
        invariant
            i <= registry@.len(),
            lists == registry@.map_values(|e: (String, Vec<ToolSpec>)| specs_view(e.1@)),
            specs_view(out@) == lists.take(i as int).flatten(),
        decreases registry@.len() - i,
    {
        let specs = &registry[i].1;
        let ghost start = specs_view(out@);
        let mut j: usize = 0;
        while j < specs.len()
            invariant
                j <= specs@.len(),
                specs_view(out@) == start + specs_view(specs@).take(j as int),
            decreases specs@.len() - j,
        {
            let ghost before = out@;
            out.push(specs[j].copy());
            j = j + 1;
            proof {
                assert(specs_view(out@) =~= specs_view(before).push(specs@[j - 1]@));
                assert(specs_view(out@) =~= start + specs_view(specs@).take(j as int));
            }
        }
        proof {
            assert(specs_view(specs@).take(j as int) =~= specs_view(specs@));
            assert(lists.take(i + 1) =~= lists.take(i as int).push(lists[i as int]));
            lists.take(i as int).lemma_flatten_push(lists[i as int]);
        }
        i = i + 1;
    }
    proof {
        assert(lists.take(registry@.len() as int) =~= lists);
    }
    let ghost before = out@;
    out.push(agent_spawn_spec());
    out.push(propose_evolution_spec());
    proof {
        assert(specs_view(out@) =~= specs_view(before).push(spawn_tool()).push(propose_tool()));
    }
    out
}

// ── the router ──────────────────────────────────────────────────────────────

/// The first session id handed to a sub-agent: sub-agents take the upper
/// half of the id space, frontends the lower.
pub const FIRST_CHILD_ID: u64 = 9223372036854775808;

/// The router's own state: how deep each session is, which sub-agents each
/// session spawned, the next sub-agent id, and the tools each plugin
/// offers.
#[derive(Debug)]
pub struct Router {
    /// How deep sub-agents may nest below a root session.
    pub max_depth: u32,
    /// Session → depth (0 for a root session).
    pub depths: HashMap<u64, u32>,
    /// Session → the sub-agents it spawned, in order.
    pub children: Vec<(u64, Vec<SessionId>)>,
    /// The id the next sub-agent gets.
    pub next_child_id: u64,
    /// Plugin name → the tools it offers.
    pub tools: Vec<(String, Vec<ToolSpec>)>,
}

/// What becomes of a request for a sub-agent.
#[derive(Debug)]
pub enum SpawnOutcome {
    /// The parent is at the depth limit: emit this failed result to it.
    Refused(Event),
    /// Start a turn for `child` on `history` with `tools`.
    Start { child: SessionId, history: Vec<Message>, tools: Vec<ToolSpec> },
}

/// The children lists, as models.
pub open spec fn children_view(c: Seq<(u64, Vec<SessionId>)>) -> Seq<(u64, Seq<u64>)> {
    c.map_values(|e: (u64, Vec<SessionId>)| (e.0, ids_view(e.1@)))
}

/// The sub-agents each session spawned (none for an unknown session).
pub open spec fn kids_in(c: Seq<(u64, Vec<SessionId>)>) -> spec_fn(u64) -> Seq<u64> {
    |p: u64|
        match first_with(children_view(c), p) {
            Some(v) => v,
            None => Seq::<u64>::empty(),
        }
}

/// Every sub-agent id in the children lists.
pub open spec fn kid_pool(c: Seq<(u64, Vec<SessionId>)>) -> Seq<u64> {
    children_view(c).map_values(|e: (u64, Seq<u64>)| e.1).flatten()
}

/// The depth of session `s` (0 when unknown).
pub open spec fn depth_of(depths: Map<u64, u32>, s: u64) -> u32 {
    if depths.contains_key(s) {
        depths[s]
    } else {
        0
    }
}

/// The history of session `s` (empty when unknown), as a model.
pub open spec fn history_of(h: Map<u64, Vec<Message>>, s: u64) -> Seq<MessageView> {
    if h.contains_key(s) {
        messages_view(h[s]@)
    } else {
        Seq::empty()
    }
}

/// The failed result a parent gets when it may not spawn.
pub open spec fn depth_refusal(ev: Event, parent: SessionId, call: ActionId) -> bool {
    match ev {
        Event::ToolResult { session, call: c, output } => session == parent && c == call && !output.ok
            && output.content@ == JsonView::Str("max sub-agent depth exceeded"@),
        _ => false,
    }
}

/// `r` is the cancellation list for `root`: `root` first, each session
/// once, every sub-agent of a listed session listed, and every listed
/// session but `root` a sub-agent of one listed before it.
pub open spec fn cancel_list(kids: spec_fn(u64) -> Seq<u64>, root: u64, r: Seq<u64>) -> bool {
    walk_shape(kids, root, r, r.len()) && r.no_duplicates()
}

/// An element of one of the lists is in their concatenation.
pub proof fn lemma_flatten_contains(s: Seq<Seq<u64>>, k: int, x: u64)
    requires
        0 <= k < s.len(),
        s[k].contains(x),
    ensures
        s.flatten().contains(x),
    decreases k,
{
    let f = s.flatten();
    assert(f == s[0] + s.drop_first().flatten());
    if k == 0 {
        let j = choose|j: int| 0 <= j < s[0].len() && s[0][j] == x;
        assert(f[j] == x);
    } else {
        assert(s.drop_first()[k - 1] == s[k]);
        lemma_flatten_contains(s.drop_first(), k - 1, x);
        let r = s.drop_first().flatten();
        let j = choose|j: int| 0 <= j < r.len() && r[j] == x;
        assert(f[s[0].len() + j] == x);
    }
}

/// A duplicate-free list drawn from `pool` and `root` is at most one
/// longer than `pool`.
pub proof fn lemma_bounded_by_pool(out: Seq<u64>, pool: Seq<u64>, root: u64)
    requires
        out.no_duplicates(),
        forall|x: u64| out.contains(x) ==> x == root || pool.contains(x),
    ensures
        out.len() <= pool.len() + 1,
{
    broadcast use vstd::seq_lib::seq_to_set_is_finite;
    broadcast use vstd::set::group_set_axioms;

    out.unique_seq_to_set();
    pool.lemma_cardinality_of_set();
    let u = pool.to_set().insert(root);
    assert(out.to_set().subset_of(u));
    vstd::set_lib::lemma_len_subset(out.to_set(), u);
}

/// A sub-agent of `p` is in the pool.
proof fn lemma_kid_in_pool(c: Seq<(u64, Vec<SessionId>)>, p: u64, x: u64)
    requires
        kids_in(c)(p).contains(x),
    ensures
        kid_pool(c).contains(x),
{
    let cv = children_view(c);
    lemma_first_with_entry(cv, p);
    let k = choose|k: int| 0 <= k < cv.len() && #[trigger] cv[k] == (p, first_with(cv, p)->0);
    let lists = cv.map_values(|e: (u64, Seq<u64>)| e.1);
    assert(lists[k] == kids_in(c)(p));
    lemma_flatten_contains(lists, k, x);
}

/// Whether `x` is one of `v`'s sessions.
fn has_session(v: &Vec<SessionId>, x: u64) -> (r: bool)
    ensures
        r == ids_view(v@).contains(x),
{
    let mut i: usize = 0;
    while i < v.len()
        invariant
            i <= v@.len(),
            forall|j: int| 0 <= j < i ==> v@[j].0 != x,
        decreases v@.len() - i,
    {
        if v[i].0 == x {
            assert(ids_view(v@)[i as int] == x);
            return true;
        }
        i = i + 1;
    }
    proof {
        assert forall|j: int| 0 <= j < ids_view(v@).len() implies ids_view(v@)[j] != x by {
            assert(ids_view(v@)[j] == v@[j].0);
        }
    }
    false
}

impl Router {
    /// Plugin names are registered at most once, and no session is deeper
    /// than the limit.
    pub open spec fn wf(&self) -> bool {
        &&& distinct_keys(keyed(self.tools@))
        &&& forall|s: u64| #[trigger] self.depths@.contains_key(s) ==> self.depths@[s] <= self.max_depth
    }

    /// The sub-agents of each session.
    pub open spec fn kids(&self) -> spec_fn(u64) -> Seq<u64> {
        kids_in(self.children@)
    }

    /// Every sub-agent has a recorded depth.
    pub open spec fn children_known(&self) -> bool {
        forall|p: u64, x: u64| #[trigger] self.kids()(p).contains(x) ==> self.depths@.contains_key(x)
    }

    /// Sub-agent ids are fresh: each lies in the upper half of the id space
    /// and below the next id to be handed out, no session lists one twice,
    /// and no two sessions list the same one.
    pub open spec fn ids_fresh(&self) -> bool {
        &&& FIRST_CHILD_ID <= self.next_child_id
        &&& forall|p: u64, x: u64|
            #[trigger] self.kids()(p).contains(x) ==> FIRST_CHILD_ID <= x < self.next_child_id
        &&& forall|p: u64| #[trigger] self.kids()(p).no_duplicates()
        &&& forall|p: u64, q: u64, x: u64|
            #[trigger] self.kids()(p).contains(x) && #[trigger] self.kids()(q).contains(x) ==> p == q
    }

    /// The tools plugin `p` offers.
    pub open spec fn plugin_tools(&self, p: Seq<char>) -> Option<Seq<ToolSpecView>> {
        match lookup(keyed(self.tools@), p) {
            Some(v) => Some(specs_view(v@)),
            None => None,
        }
    }

    /// A router with no sessions, no plugins, and sub-agent ids starting at
    /// `FIRST_CHILD_ID`.
    pub fn new(max_depth: u32) -> (r: Router)
        ensures
            r.wf(),
            r.max_depth == max_depth,
            r.depths@ == Map::<u64, u32>::empty(),
            r.children@.len() == 0,
            r.next_child_id == FIRST_CHILD_ID,
            r.tools@.len() == 0,
            r.ids_fresh(),
            r.children_known(),
    {
        proof {
            assert forall|p: u64| #[trigger] kids_in(Seq::<(u64, Vec<SessionId>)>::empty())(p)
                == Seq::<u64>::empty() by {
                lemma_first_with_none(children_view(Seq::<(u64, Vec<SessionId>)>::empty()), p);
            }
        }
        Router {
            max_depth,
            depths: HashMap::new(),
            children: Vec::new(),
            next_child_id: FIRST_CHILD_ID,
            tools: Vec::new(),
        }
    }

    /// A user prompt starts a root turn: the session is known at depth 0
    /// (an existing depth stays), the prompt joins its history, and the
    /// turn runs on a copy of that history with the offered tools.
    pub fn on_user_prompt(
        &mut self,
        histories: &mut HashMap<u64, Vec<Message>>,
        session: SessionId,
        text: String,
    ) -> (r: (Vec<Message>, Vec<ToolSpec>))
        requires
            old(self).wf(),
        ensures
            final(self).wf(),
            final(self).depths@ == if old(self).depths@.contains_key(session.0) {
                old(self).depths@
            } else {
                old(self).depths@.insert(session.0, 0)
            },
            final(self).children@ == old(self).children@,
            final(self).next_child_id == old(self).next_child_id,
            final(self).tools@ == old(self).tools@,
            final(self).max_depth == old(self).max_depth,
            final(histories)@ == old(histories)@.insert(session.0, final(histories)@[session.0]),
            messages_view(final(histories)@[session.0]@) == history_of(old(histories)@, session.0).push(
                prompt_message(text@),
            ),
            messages_view(r.0@) == messages_view(final(histories)@[session.0]@),
            specs_view(r.1@) == offered_tools(old(self).tools@),
            old(self).ids_fresh() ==> final(self).ids_fresh(),
            old(self).children_known() ==> final(self).children_known(),
    {
        if !self.depths.contains_key(&session.0) {
            self.depths.insert(session.0, 0);
        }
        let ghost before = history_of(histories@, session.0);
        let mut hist = match histories.remove(&session.0) {
            Some(h) => h,
            None => Vec::new(),
        };
        proof {
            assert(messages_view(hist@) == before);
        }
        let ghost prev = hist@;
        hist.push(Message::user_text(text));
        proof {
            assert(messages_view(hist@) =~= messages_view(prev).push(hist@.last()@));
        }
        let snapshot = copy_messages(&hist);
        histories.insert(session.0, hist);
        let tools = gather_tools(&self.tools);
        proof {
            assert(self.children@ == old(self).children@);
            assert(self.kids() == old(self).kids());
            if old(self).children_known() {
                assert forall|p: u64, x: u64| #[trigger] self.kids()(p).contains(x) implies self.depths@.contains_key(
                    x,
                ) by {
                    assert(old(self).kids()(p).contains(x));
                }
            }
        }
        (snapshot, tools)
    }

    /// A request for a sub-agent. A parent at the depth limit gets a failed
    /// result. Otherwise the sub-agent takes the next id (wrapping), is one
    /// level deeper than its parent, is listed among the parent's
    /// sub-agents, and starts with the prompt as its whole history.
    pub fn on_spawn(
        &mut self,
        histories: &mut HashMap<u64, Vec<Message>>,
        parent: SessionId,
        call_id: ActionId,
        prompt: String,
    ) -> (r: SpawnOutcome)
        requires
            old(self).wf(),
        ensures
            final(self).wf(),
            final(self).max_depth == old(self).max_depth,
            final(self).tools@ == old(self).tools@,
            depth_of(old(self).depths@, parent.0) >= old(self).max_depth ==> {
                &&& r matches SpawnOutcome::Refused(ev) && depth_refusal(ev, parent, call_id)
                &&& *final(self) == *old(self)
                &&& final(histories)@ == old(histories)@
            },
            depth_of(old(self).depths@, parent.0) < old(self).max_depth ==> {
                let child = old(self).next_child_id;
                &&& r matches SpawnOutcome::Start { child: c, history, tools } && c.0 == child
                    && messages_view(history@) == seq![prompt_message(prompt@)] && specs_view(
                    tools@,
                ) == offered_tools(old(self).tools@)
                &&& final(self).next_child_id == old(self).next_child_id.wrapping_add(1)
                &&& final(self).depths@ == old(self).depths@.insert(
                    child,
                    (depth_of(old(self).depths@, parent.0) + 1) as u32,
                )
                &&& final(self).kids()(parent.0) == old(self).kids()(parent.0).push(child)
                &&& forall|p: u64| p != parent.0 ==> #[trigger] final(self).kids()(p) == old(
                    self,
                ).kids()(p)
                &&& final(histories)@ == old(histories)@.insert(child, final(histories)@[child])
                &&& messages_view(final(histories)@[child]@) == seq![prompt_message(prompt@)]
                &&& old(self).ids_fresh() ==> FIRST_CHILD_ID <= child && forall|p: u64|
                    !(#[trigger] old(self).kids()(p)).contains(child)
            },
            old(self).ids_fresh() && old(self).next_child_id < u64::MAX ==> final(self).ids_fresh(),
            old(self).children_known() ==> final(self).children_known(),
    {
        let parent_depth: u32 = match self.depths.get(&parent.0) {
            Some(d) => *d,
            None => 0,
        };
        if parent_depth >= self.max_depth {
            let output = ToolOutput {
                ok: false,
                content: JsonValue::string("max sub-agent depth exceeded"),
            };
            return SpawnOutcome::Refused(Event::ToolResult { session: parent, call: call_id, output });
        }
        let child = self.next_child_id;
        self.next_child_id = self.next_child_id.wrapping_add(1);
        self.depths.insert(child, parent_depth + 1);
        self.add_child(parent.0, SessionId(child));
        proof {
            lemma_spawn_keeps_fresh(*old(self), *self, parent.0, child);
            if old(self).children_known() {
                assert forall|p: u64, x: u64| #[trigger] self.kids()(p).contains(x) implies self.depths@.contains_key(
                    x,
                ) by {
                    if x != child {
                        if p == parent.0 {
                            let s0 = old(self).kids()(p);
                            let k = choose|k: int| 0 <= k < s0.push(child).len() && s0.push(child)[k] == x;
                            assert(s0[k] == x);
                        }
                        assert(old(self).kids()(p).contains(x));
                    }
                }
            }
        }
        let mut history: Vec<Message> = Vec::new();
        history.push(Message::user_text(prompt));
        proof {
            assert(messages_view(history@) =~= seq![history@[0]@]);
        }
        histories.insert(child, copy_messages(&history));
        let tools = gather_tools(&self.tools);
        SpawnOutcome::Start { child: SessionId(child), history, tools }
    }

    /// Lists `child` among the sub-agents of `parent`.
    fn add_child(&mut self, parent: u64, child: SessionId)
        ensures
            final(self).max_depth == old(self).max_depth,
            final(self).depths@ == old(self).depths@,
            final(self).next_child_id == old(self).next_child_id,
            final(self).tools@ == old(self).tools@,
            final(self).kids()(parent) == old(self).kids()(parent).push(child.0),
            forall|p: u64| p != parent ==> #[trigger] final(self).kids()(p) == old(self).kids()(p),
    {
        let ghost cv = children_view(self.children@);
        match find_id(&self.children, parent) {
            Some(k) => {
                let mut entry = self.children.remove(k);
                let ghost old_list = entry.1@;
                entry.1.push(child);
                self.children.insert(k, entry);
                proof {
                    let v2 = ids_view(old_list).push(child.0);
                    assert(ids_view(entry.1@) =~= v2);
                    assert(children_view(self.children@) =~= cv.update(k as int, (parent, v2)));
                    assert(cv[k as int].0 == parent);
                    assert forall|j: int| 0 <= j < k implies cv[j].0 != cv[k as int].0 by {
                        assert(cv[j].0 == old(self).children@[j].0);
                    }
                    lemma_first_with_at(cv, parent, k as int);
                    assert(cv[k as int].1 == ids_view(old_list));
                    assert forall|p: u64| #![auto] true implies first_with(
                        children_view(self.children@),
                        p,
                    ) == if p == parent {
                        Some(v2)
                    } else {
                        first_with(cv, p)
                    } by {
                        lemma_first_with_update(cv, k as int, v2, p);
                    }
                }
            },
            None => {
                let mut list: Vec<SessionId> = Vec::new();
                list.push(child);
                self.children.push((parent, list));
                proof {
                    let v2 = seq![child.0];
                    assert(ids_view(list@) =~= v2);
                    assert(children_view(self.children@) =~= cv.push((parent, v2)));
                    assert forall|j: int| 0 <= j < cv.len() implies cv[j].0 != parent by {
                        assert(cv[j].0 == old(self).children@[j].0);
                    }
                    lemma_first_with_none(cv, parent);
                    assert forall|p: u64| #![auto] true implies first_with(
                        children_view(self.children@),
                        p,
                    ) == if p == parent {
                        Some(v2)
                    } else {
                        first_with(cv, p)
                    } by {
                        lemma_first_with_push(cv, parent, v2, p);
                    }
                }
            },
        }
    }
}

/// Takes out the task handles of the cancelled sessions (for the caller to
/// abort), in the order held; the handles of every other session stay, in
/// order.
pub fn take_cancelled<H>(handles: &mut Vec<(u64, H)>, cancel: &Vec<SessionId>) -> (taken: Vec<(u64, H)>)
    ensures
        final(handles)@ == old(handles)@.filter(|e: (u64, H)| !ids_view(cancel@).contains(e.0)),
        taken@ == old(handles)@.filter(|e: (u64, H)| ids_view(cancel@).contains(e.0)),
{
    let ghost stay = |e: (u64, H)| !ids_view(cancel@).contains(e.0);
    let ghost go = |e: (u64, H)| ids_view(cancel@).contains(e.0);
    let mut src: Vec<(u64, H)> = Vec::new();
    std::mem::swap(&mut src, handles);
    let ghost all = src@;
    let n = src.len();
    let mut taken: Vec<(u64, H)> = Vec::new();
    let mut i: usize = 0;
    proof {
        reveal(Seq::filter);
        assert(all.take(0) =~= Seq::<(u64, H)>::empty());
    }
    while src.len() > 0
        invariant
            stay == (|e: (u64, H)| !ids_view(cancel@).contains(e.0)),
            go == (|e: (u64, H)| ids_view(cancel@).contains(e.0)),
            all.len() == n,
            i + src@.len() == all.len(),
            src@ == all.subrange(i as int, all.len() as int),
            handles@ == all.take(i as int).filter(stay),
            taken@ == all.take(i as int).filter(go),
        decreases src@.len(),
    {
        let e = src.remove(0);
        proof {
            reveal(Seq::filter);
            assert(e == all[i as int]);
            assert(all.take(i + 1).drop_last() =~= all.take(i as int));
            assert(all.take(i + 1).last() == e);
        }
        if has_session(cancel, e.0) {
            taken.push(e);
        } else {
            handles.push(e);
        }
        i = i + 1;
        proof {
            assert(src@ =~= all.subrange(i as int, all.len() as int));
        }
    }
    proof {
        assert(all.take(i as int) =~= all);
    }
    taken
}

/// Every sub-agent a router has started lies within the depth limit, has
/// an id in the upper half of the id space, and shares its id with no
/// other: `Router::new` makes these hold, and every prompt, spawn and
/// plugin change keeps them (a spawn, as long as the id counter has not
/// reached its last value), so they hold after any run of the router.
pub proof fn law_started_children(r: Router)
    requires
        r.wf(),
        r.ids_fresh(),
        r.children_known(),
    ensures
        forall|p: u64, x: u64|
            #[trigger] r.kids()(p).contains(x) ==> FIRST_CHILD_ID <= x && r.depths@.contains_key(x)
                && r.depths@[x] <= r.max_depth,
        forall|p: u64| #[trigger] r.kids()(p).no_duplicates(),
        forall|p: u64, q: u64, x: u64|
            #[trigger] r.kids()(p).contains(x) && #[trigger] r.kids()(q).contains(x) ==> p == q,
{
}

/// Handing out the next id keeps the ids fresh, unless the counter is at
/// its last value and would wrap.
proof fn lemma_spawn_keeps_fresh(before: Router, after: Router, parent: u64, child: u64)
    requires
        child == before.next_child_id,
        after.next_child_id == before.next_child_id.wrapping_add(1),
        after.kids()(parent) == before.kids()(parent).push(child),
        forall|p: u64| p != parent ==> #[trigger] after.kids()(p) == before.kids()(p),
    ensures
        before.ids_fresh() ==> FIRST_CHILD_ID <= child && forall|p: u64|
            !(#[trigger] before.kids()(p)).contains(child),
        before.ids_fresh() && before.next_child_id < u64::MAX ==> after.ids_fresh(),
{
    if before.ids_fresh() {
        assert forall|p: u64| !(#[trigger] before.kids()(p)).contains(child) by {
            if before.kids()(p).contains(child) {
                assert(child < before.next_child_id);
            }
        }
        if before.next_child_id < u64::MAX {
            assert(after.next_child_id == before.next_child_id + 1);
            assert forall|p: u64, x: u64| #[trigger] after.kids()(p).contains(x) implies before.kids()(
                p,
            ).contains(x) || (p == parent && x == child) by {
                if p == parent {
                    let s = before.kids()(p);
                    let i = choose|i: int| 0 <= i < s.push(child).len() && s.push(child)[i] == x;
                    if i < s.len() {
                        assert(s[i] == x);
                    }
                }
            }
            assert forall|p: u64, x: u64| #[trigger] after.kids()(p).contains(x) implies FIRST_CHILD_ID
                <= x < after.next_child_id by {
                if !(p == parent && x == child) {
                    assert(before.kids()(p).contains(x));
                }
            }
            assert forall|p: u64| #[trigger] after.kids()(p).no_duplicates() by {
                if p == parent {
                    let s = before.kids()(p);
                    let t = s.push(child);
                    assert forall|i: int, j: int| 0 <= i < t.len() && 0 <= j < t.len() && i != j implies t[i]
                        != t[j] by {
                        if i < s.len() && j < s.len() {
                            assert(s.no_duplicates());
                        } else if i < s.len() {
                            assert(s.contains(s[i]));
                        } else {
                            assert(s.contains(s[j]));
                        }
                    }
                }
            }
            assert forall|p: u64, q: u64, x: u64|
                #[trigger] after.kids()(p).contains(x) && #[trigger] after.kids()(q).contains(x) implies p
                == q by {
                if x == child {
                    if p != parent {
                        assert(before.kids()(p).contains(x));
                    }
                    if q != parent {
                        assert(before.kids()(q).contains(x));
                    }
                } else {
                    assert(before.kids()(p).contains(x));
                    assert(before.kids()(q).contains(x));
                }
            }
        }
    }
}

impl Router {
    /// The sessions a cancellation of `session` stops: the session and
    /// every sub-agent below it, breadth-first, each once.
    pub fn on_cancel(&self, session: SessionId) -> (r: Vec<SessionId>)
        ensures
            cancel_list(self.kids(), session.0, ids_view(r@)),
    {
        let ghost kids = self.kids();
        let ghost pool = kid_pool(self.children@);
        let ghost root = session.0;
        let mut out: Vec<SessionId> = Vec::new();
        out.push(session);
        let mut i: usize = 0;
        proof {
            assert(ids_view(out@) =~= seq![root]);
            assert(ids_view(out@)[0] == root);
        }
        while i < out.len()
            invariant
                kids == self.kids(),
                pool == kid_pool(self.children@),
                walk_shape(kids, root, ids_view(out@), i as nat),
                ids_view(out@).no_duplicates(),
                forall|x: u64| ids_view(out@).contains(x) ==> x == root || pool.contains(x),
            decreases pool.len() + 1 - i,
        {
            proof {
                lemma_bounded_by_pool(ids_view(out@), pool, root);
            }
            let cur = out[i].0;
            let ghost before = ids_view(out@);
            proof {
                assert(before[i as int] == cur);
            }
            match find_id(&self.children, cur) {
                Some(k) => {
                    let ch = &self.children[k].1;
                    proof {
                        let cv = children_view(self.children@);
                        assert forall|j: int| 0 <= j < k implies cv[j].0 != cur by {
                            assert(cv[j].0 == self.children@[j].0);
                        }
                        lemma_first_with_at(cv, cur, k as int);
                        assert(kids(cur) == ids_view(ch@));
                    }
                    let mut j: usize = 0;
                    while j < ch.len()
                        invariant
                            kids == self.kids(),
                            pool == kid_pool(self.children@),
                            i < before.len(),
                            before[i as int] == cur,
                            kids(cur) == ids_view(ch@),
                            j <= ch@.len(),
                            ids_view(out@).len() >= before.len(),
                            ids_view(out@).subrange(0, before.len() as int) == before,
                            walk_shape(kids, root, ids_view(out@), i as nat),
                            forall|c: int| 0 <= c < j ==> ids_view(out@).contains(#[trigger] kids(cur)[c]),
                            ids_view(out@).no_duplicates(),
                            forall|x: u64| ids_view(out@).contains(x) ==> x == root || pool.contains(x),
                        decreases ch@.len() - j,
                    {
                        let x = ch[j].0;
                        proof {
                            assert(kids(cur)[j as int] == x);
                        }
                        if !has_session(&out, x) {
                            let ghost prev = ids_view(out@);
                            out.push(SessionId(x));
                            proof {
                                let now = ids_view(out@);
                                assert(now =~= prev.push(x));
                                assert(now.subrange(0, before.len() as int) =~= before) by {
                                    assert(prev.subrange(0, before.len() as int) == before);
                                }
                                assert(now[i as int] == cur);
                                assert(kids(cur)[j as int] == x);
                                assert(kids(now[i as int]).contains(x));
                                assert(now[now.len() - 1] == x);
                                assert(i < now.len() - 1);
                                assert(kids(now[i as int]).contains(now[now.len() - 1]));
                                assert(child_of_earlier(kids, now, now.len() - 1));
                                assert forall|q: int| 0 < q < now.len() implies #[trigger] child_of_earlier(
                                    kids,
                                    now,
                                    q,
                                ) by {
                                    if q < prev.len() {
                                        assert(child_of_earlier(kids, prev, q));
                                        let m = choose|m: int|
                                            0 <= m < q && #[trigger] kids(prev[m]).contains(prev[q]);
                                        assert(now[m] == prev[m]);
                                        assert(now[q] == prev[q]);
                                    }
                                }
                                assert forall|a: int, c: int|
                                    0 <= a < i && 0 <= c < kids(now[a]).len() implies now.contains(
                                    #[trigger] kids(now[a])[c],
                                ) by {
                                    assert(now[a] == prev[a]);
                                    let y = kids(prev[a])[c];
                                    assert(prev.contains(y));
                                    let w = choose|w: int| 0 <= w < prev.len() && prev[w] == y;
                                    assert(now[w] == y);
                                }
                                assert forall|c: int| 0 <= c <= j implies now.contains(
                                    #[trigger] kids(cur)[c],
                                ) by {
                                    if c < j {
                                        let y = kids(cur)[c];
                                        assert(prev.contains(y));
                                        let w = choose|w: int| 0 <= w < prev.len() && prev[w] == y;
                                        assert(now[w] == y);
                                    } else {
                                        assert(now[now.len() - 1] == x);
                                    }
                                }
                                assert(now.no_duplicates()) by {
                                    assert forall|a: int, b: int|
                                        0 <= a < now.len() && 0 <= b < now.len() && a != b implies now[a]
                                        != now[b] by {
                                        if a == now.len() - 1 {
                                            assert(!prev.contains(x));
                                            assert(prev[b] != x);
                                        } else if b == now.len() - 1 {
                                            assert(!prev.contains(x));
                                            assert(prev[a] != x);
                                        }
                                    }
                                }
                                assert forall|y: u64| now.contains(y) implies y == root || pool.contains(y) by {
                                    let w = choose|w: int| 0 <= w < now.len() && now[w] == y;
                                    if w < prev.len() {
                                        assert(prev[w] == y);
                                    } else {
                                        lemma_kid_in_pool(self.children@, cur, x);
                                    }
                                }
                                assert(walk_shape(kids, root, now, i as nat));
                            }
                        }
                        j = j + 1;
                    }
                    proof {
                        let now = ids_view(out@);
                        assert forall|a: int, c: int|
                            0 <= a < i + 1 && 0 <= c < kids(now[a]).len() implies now.contains(
                            #[trigger] kids(now[a])[c],
                        ) by {
                            if a == i {
                                assert(now[a] == before[a]);
                                assert(kids(now[a])[c] == kids(cur)[c]);
                            }
                        }
                    }
                },
                None => {
                    proof {
                        let cv = children_view(self.children@);
                        assert forall|j: int| 0 <= j < cv.len() implies cv[j].0 != cur by {
                            assert(cv[j].0 == self.children@[j].0);
                        }
                        lemma_first_with_none(cv, cur);
                        assert(kids(cur).len() == 0);
                    }
                },
            }
            i = i + 1;
        }
        out
    }

    /// A plugin came up: its tools replace any it offered before.
    pub fn on_plugin_up(&mut self, plugin: PluginId, tools: Vec<ToolSpec>)
        requires
            old(self).wf(),
        ensures
            final(self).wf(),
            final(self).plugin_tools(plugin.0@) == Some(specs_view(tools@)),
            forall|p: Seq<char>|
                p != plugin.0@ ==> #[trigger] final(self).plugin_tools(p) == old(self).plugin_tools(p),
            final(self).depths@ == old(self).depths@,
            final(self).children@ == old(self).children@,
            final(self).next_child_id == old(self).next_child_id,
            final(self).max_depth == old(self).max_depth,
    {
        assoc_set(&mut self.tools, plugin.0, tools);
    }

    /// A plugin went down: it offers no tools any more.
    pub fn on_plugin_down(&mut self, plugin: &PluginId)
        requires
            old(self).wf(),
        ensures
            final(self).wf(),
            final(self).plugin_tools(plugin.0@) is None,
            forall|p: Seq<char>|
                p != plugin.0@ ==> #[trigger] final(self).plugin_tools(p) == old(self).plugin_tools(p),
            final(self).depths@ == old(self).depths@,
            final(self).children@ == old(self).children@,
            final(self).next_child_id == old(self).next_child_id,
            final(self).max_depth == old(self).max_depth,
    {
        let _ = assoc_remove(&mut self.tools, plugin.0.as_str());
    }
}

/// A finished root turn: on success its history is kept.
pub fn finish_root(
    histories: &mut HashMap<u64, Vec<Message>>,
    session: SessionId,
    outcome: Result<Vec<Message>, String>,
)
    ensures
        match outcome {
            Ok(h) => final(histories)@ == old(histories)@.insert(session.0, h),
            Err(_) => final(histories)@ == old(histories)@,
        },
{
    match outcome {
        Ok(h) => {
            histories.insert(session.0, h);
        },
        Err(_) => {},
    }
}

/// A finished sub-agent turn: on success its history is kept and the
/// parent's call gets the sub-agent's final text; on failure the parent's
/// call gets the error text.
pub fn finish_child(
    histories: &mut HashMap<u64, Vec<Message>>,
    child: SessionId,
    parent: SessionId,
    call_id: ActionId,
    outcome: Result<Vec<Message>, String>,
) -> (r: Event)
    ensures
        match outcome {
            Ok(h) => {
                &&& final(histories)@ == old(histories)@.insert(child.0, h)
                &&& r matches Event::ToolResult { session, call, output } && session == parent && call
                    == call_id && output.ok && output.content@ == JsonView::Str(
                    final_text(messages_view(h@)),
                )
            },
            Err(e) => {
                &&& final(histories)@ == old(histories)@
                &&& r matches Event::ToolResult { session, call, output } && session == parent && call
                    == call_id && !output.ok && output.content@ == JsonView::Str(e@)
            },
        },
{
    let output = match outcome {
        Ok(h) => {
            let text = extract_final_text(&h);
            histories.insert(child.0, h);
            ToolOutput { ok: true, content: JsonValue::string(text.as_str()) }
        },
        Err(e) => ToolOutput { ok: false, content: JsonValue::string(e.as_str()) },
    };
    Event::ToolResult { session: parent, call: call_id, output }
}

/// `path` goes down from `root` one sub-agent at a time.
pub open spec fn spawn_path(kids: spec_fn(u64) -> Seq<u64>, root: u64, path: Seq<u64>) -> bool {
    &&& path.len() >= 1
    &&& path[0] == root
    &&& forall|i: int| 0 <= i < path.len() - 1 ==> #[trigger] kids(path[i]).contains(path[i + 1])
}

/// A cancellation stops exactly the session and its descendants: the end
/// of every path down from the session is listed, and every listed
/// session is the end of such a path.
pub proof fn law_cancel_is_descendants(kids: spec_fn(u64) -> Seq<u64>, root: u64, r: Seq<u64>)
    requires
        cancel_list(kids, root, r),
    ensures
        forall|path: Seq<u64>| #[trigger] spawn_path(kids, root, path) ==> r.contains(path.last()),
        forall|x: u64|
            r.contains(x) ==> exists|path: Seq<u64>| #[trigger] spawn_path(kids, root, path) && path.last()
                == x,
{
    assert forall|path: Seq<u64>| #[trigger] spawn_path(kids, root, path) implies r.contains(path.last()) by {
        lemma_path_end_listed(kids, root, r, path);
    }
    assert forall|x: u64| r.contains(x) implies exists|path: Seq<u64>|
        #[trigger] spawn_path(kids, root, path) && path.last() == x by {
        let q = choose|q: int| 0 <= q < r.len() && r[q] == x;
        let path = lemma_listed_has_path(kids, root, r, q);
        assert(spawn_path(kids, root, path) && path.last() == x);
    }
}

proof fn lemma_path_end_listed(kids: spec_fn(u64) -> Seq<u64>, root: u64, r: Seq<u64>, path: Seq<u64>)
    requires
        cancel_list(kids, root, r),
        spawn_path(kids, root, path),
    ensures
        r.contains(path.last()),
    decreases path.len(),
{
    if path.len() == 1 {
        assert(r[0] == root);
    } else {
        let prefix = path.drop_last();
        assert forall|i: int| 0 <= i < prefix.len() - 1 implies #[trigger] kids(prefix[i]).contains(
            prefix[i + 1],
        ) by {
            assert(kids(path[i]).contains(path[i + 1]));
        }
        lemma_path_end_listed(kids, root, r, prefix);
        let p = prefix.last();
        let x = path.last();
        let i = path.len() - 2;
        assert(kids(path[i]).contains(path[i + 1]));
        assert(path[i] == p && path[i + 1] == x);
        let a = choose|a: int| 0 <= a < r.len() && r[a] == p;
        let c = choose|c: int| 0 <= c < kids(p).len() && #[trigger] kids(p)[c] == x;
        assert(kids(r[a])[c] == x);
        assert(r.contains(kids(r[a])[c]));
    }
}

proof fn lemma_listed_has_path(kids: spec_fn(u64) -> Seq<u64>, root: u64, r: Seq<u64>, q: int) -> (path:
    Seq<u64>)
    requires
        cancel_list(kids, root, r),
        0 <= q < r.len(),
    ensures
        spawn_path(kids, root, path),
        path.last() == r[q],
    decreases q,
{
    if q == 0 {
        seq![root]
    } else {
        assert(child_of_earlier(kids, r, q));
        let m = choose|m: int| 0 <= m < q && #[trigger] kids(r[m]).contains(r[q]);
        let p = lemma_listed_has_path(kids, root, r, m);
        let path = p.push(r[q]);
        assert forall|i: int| 0 <= i < path.len() - 1 implies #[trigger] kids(path[i]).contains(
            path[i + 1],
        ) by {
            if i < p.len() - 1 {
                assert(path[i] == p[i] && path[i + 1] == p[i + 1]);
                assert(kids(p[i]).contains(p[i + 1]));
            } else {
                assert(path[i] == p.last());
                assert(path[i + 1] == r[q]);
            }
        }
        path
    }
}

} // verus!
