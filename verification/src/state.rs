//! The canonical system state and the pure `apply` transition that folds
//! one event into it.
use std::collections::HashMap;
use vstd::prelude::*;
use crate::assoc::{assoc_remove, assoc_set, distinct_keys, keyed, lookup, lemma_lookup_at};
use crate::text::str_eq;
use crate::tree::{collected, walk, walk_done, walk_finishes, walk_length, walk_shape, lemma_walk_stays, lemma_collected_shape, tree_below, lemma_tree_walk_finishes};
use crate::types::{
    AgentContext, BlockView, ContextView, Event, Message, MessageView, PluginId, SessionId,
    ToolSpec, ToolSpecView, copy_specs, ids_view, specs_view,
};

verus! {

broadcast use vstd::std_specs::hash::group_hash_axioms;

/// The agent tree (held flat, parent links give the hierarchy), the tool
/// registry, the live plugins with their tools, and the tool calls awaiting
/// approval.
#[derive(Debug)]
pub struct SystemState {
    /// Session number → context.
    pub sessions: HashMap<u64, AgentContext>,
    /// Tool name → owning plugin.
    pub tools: Vec<(String, PluginId)>,
    /// Plugin name → the tools it advertises.
    pub plugins: Vec<(String, Vec<ToolSpec>)>,
    /// Action number → session of a tool call awaiting approval.
    pub pending_approvals: HashMap<u64, SessionId>,
}

/// The message a prompt appends: one user text block.
pub open spec fn prompt_message(text: Seq<char>) -> MessageView {
    MessageView::User(seq![BlockView::Text(text)])
}

/// The context of session `sid` after a prompt `text`: the existing one with
/// the message appended, or a new root session holding only that message.
pub open spec fn prompted(prev: Option<ContextView>, sid: u64, text: Seq<char>) -> ContextView {
    match prev {
        Some(c) => ContextView { history: c.history.push(prompt_message(text)), ..c },
        None => ContextView {
            id: sid,
            parent: None,
            history: seq![prompt_message(text)],
            spawned: seq![],
        },
    }
}

/// The owner of tool `name` after plugin `p` comes up advertising `names`.
pub open spec fn owner_after_up(
    before: Option<Seq<char>>,
    names: Seq<Seq<char>>,
    p: Seq<char>,
    name: Seq<char>,
) -> Option<Seq<char>> {
    if names.contains(name) {
        Some(p)
    } else {
        before
    }
}

/// The owner of a tool after plugin `p` goes down: tools it owned are gone.
pub open spec fn owner_after_down(before: Option<Seq<char>>, p: Seq<char>) -> Option<Seq<char>> {
    match before {
        Some(o) => if o == p {
            None
        } else {
            Some(o)
        },
        None => None,
    }
}

/// The names of a list of tool specs.
pub open spec fn spec_names(v: Seq<ToolSpec>) -> Seq<Seq<char>> {
    v.map_values(|t: ToolSpec| t.name@)
}

/// The map of session contexts, as models.
pub open spec fn contexts(m: Map<u64, AgentContext>) -> Map<u64, ContextView> {
    m.map_values(|c: AgentContext| c@)
}

impl SystemState {
    /// Tool names and plugin names are each registered at most once.
    pub open spec fn wf(&self) -> bool {
        &&& distinct_keys(keyed(self.tools@))
        &&& distinct_keys(keyed(self.plugins@))
    }

    /// The owner of tool `name`, by plugin name.
    pub open spec fn owner(&self, name: Seq<char>) -> Option<Seq<char>> {
        match lookup(keyed(self.tools@), name) {
            Some(p) => Some(p.0@),
            None => None,
        }
    }

    /// The tools advertised by plugin `p`.
    pub open spec fn plugin_tools(&self, p: Seq<char>) -> Option<Seq<ToolSpecView>> {
        match lookup(keyed(self.plugins@), p) {
            Some(v) => Some(specs_view(v@)),
            None => None,
        }
    }

    /// The children of each session (none for an unknown session).
    pub open spec fn kids(&self) -> spec_fn(u64) -> Seq<u64> {
        |s: u64|
            if self.sessions@.contains_key(s) {
                ids_view(self.sessions@[s].spawned@)
            } else {
                Seq::<u64>::empty()
            }
    }

    /// The empty state.
    pub fn new() -> (r: SystemState)
        ensures
            r.wf(),
            r.sessions@ == Map::<u64, AgentContext>::empty(),
            r.tools@.len() == 0,
            r.plugins@.len() == 0,
            r.pending_approvals@ == Map::<u64, SessionId>::empty(),
    {
        SystemState {
            sessions: HashMap::new(),
            tools: Vec::new(),
            plugins: Vec::new(),
            pending_approvals: HashMap::new(),
        }
    }

    /// The owner of tool `name`, if it is registered.
    pub fn tool_owner(&self, name: &str) -> (r: Option<&PluginId>)
        requires
            self.wf(),
        ensures
            match r {
                Some(p) => self.owner(name@) == Some(p.0@),
                None => self.owner(name@) is None,
            },
    {
        match crate::assoc::find_key(&self.tools, name) {
            Some(i) => {
                proof {
                    lemma_lookup_at(keyed(self.tools@), i as int);
                }
                Some(&self.tools[i].1)
            },
            None => None,
        }
    }

    /// Fold one event into the state.
    pub fn apply(&mut self, event: &Event)
        requires
            old(self).wf(),
        ensures
            final(self).wf(),
            match *event {
                Event::UserPrompt { session, text } => {
                    &&& contexts(final(self).sessions@) == contexts(old(self).sessions@).insert(
                        session.0,
                        prompted(
                            if old(self).sessions@.contains_key(session.0) {
                                Some(old(self).sessions@[session.0]@)
                            } else {
                                None
                            },
                            session.0,
                            text@,
                        ),
                    )
                    &&& final(self).tools == old(self).tools
                    &&& final(self).plugins == old(self).plugins
                    &&& final(self).pending_approvals == old(self).pending_approvals
                },
                Event::ApprovalPending { session, call } => {
                    &&& final(self).pending_approvals@ == old(self).pending_approvals@.insert(
                        call.id.0,
                        session,
                    )
                    &&& final(self).sessions == old(self).sessions
                    &&& final(self).tools == old(self).tools
                    &&& final(self).plugins == old(self).plugins
                },
                Event::UserApproval { action, .. } => {
                    &&& final(self).pending_approvals@ == old(self).pending_approvals@.remove(
                        action.0,
                    )
                    &&& final(self).sessions == old(self).sessions
                    &&& final(self).tools == old(self).tools
                    &&& final(self).plugins == old(self).plugins
                },
                Event::PluginUp { plugin, tools } => {
                    &&& forall|n: Seq<char>|
                        #[trigger] final(self).owner(n) == owner_after_up(
                            old(self).owner(n),
                            spec_names(tools@),
                            plugin.0@,
                            n,
                        )
                    &&& final(self).plugin_tools(plugin.0@) == Some(specs_view(tools@))
                    &&& forall|q: Seq<char>|
                        q != plugin.0@ ==> #[trigger] final(self).plugin_tools(q) == old(
                            self,
                        ).plugin_tools(q)
                    &&& final(self).sessions == old(self).sessions
                    &&& final(self).pending_approvals == old(self).pending_approvals
                },
                Event::PluginDown { plugin, .. } => {
                    &&& forall|n: Seq<char>|
                        #[trigger] final(self).owner(n) == owner_after_down(
                            old(self).owner(n),
                            plugin.0@,
                        )
                    &&& final(self).plugin_tools(plugin.0@) is None
                    &&& forall|q: Seq<char>|
                        q != plugin.0@ ==> #[trigger] final(self).plugin_tools(q) == old(
                            self,
                        ).plugin_tools(q)
                    &&& final(self).sessions == old(self).sessions
                    &&& final(self).pending_approvals == old(self).pending_approvals
                },
                _ => *final(self) == *old(self),
            },
    {
        match event {
            Event::UserPrompt { session, text } => {
                let ghost before = self.sessions@;
                let mut ctx = match self.sessions.remove(&session.0) {
                    Some(c) => c,
                    None => AgentContext::root(*session),
                };
                let ghost c0 = ctx@;
                ctx.history.push(Message::user_text(text.clone()));
                proof {
                    assert(ctx@.history =~= c0.history.push(prompt_message(text@)));
                    if !before.contains_key(session.0) {
                        assert(ctx@.history =~= seq![prompt_message(text@)]);
                        assert(ctx@.spawned =~= Seq::<u64>::empty());
                    }
                }
                self.sessions.insert(session.0, ctx);
                proof {
                    assert(contexts(self.sessions@) =~= contexts(before).insert(
                        session.0,
                        prompted(
                            if before.contains_key(session.0) {
                                Some(before[session.0]@)
                            } else {
                                None
                            },
                            session.0,
                            text@,
                        ),
                    ));
                }
            },
            Event::ApprovalPending { session, call } => {
                self.pending_approvals.insert(call.id.0, *session);
            },
            Event::UserApproval { action, .. } => {
                self.pending_approvals.remove(&action.0);
            },
            Event::PluginUp { plugin, tools } => {
                let ghost start = *self;
                self.register_tools(plugin, tools);
                let ghost mid = *self;
                let specs = copy_specs(tools);
                assoc_set(&mut self.plugins, plugin.0.clone(), specs);
                proof {
                    assert forall|n: Seq<char>|
                        #[trigger] self.owner(n) == owner_after_up(
                            start.owner(n),
                            spec_names(tools@),
                            plugin.0@,
                            n,
                        ) by {
                        assert(mid.owner(n) == owner_after_up(
                            start.owner(n),
                            spec_names(tools@),
                            plugin.0@,
                            n,
                        ));
                    }
                }
            },
            Event::PluginDown { plugin, .. } => {
                let ghost start = *self;
                self.drop_tools_of(plugin);
                let ghost mid = *self;
                assoc_remove(&mut self.plugins, plugin.0.as_str());
                proof {
                    assert forall|n: Seq<char>|
                        #[trigger] self.owner(n) == owner_after_down(start.owner(n), plugin.0@) by {
                        assert(mid.owner(n) == owner_after_down(start.owner(n), plugin.0@));
                    }
                }
            },
            _ => {},
        }
    }

    /// Registers every tool in `tools` as owned by `plugin`.
    fn register_tools(&mut self, plugin: &PluginId, tools: &Vec<ToolSpec>)
        requires
            old(self).wf(),
        ensures
            final(self).wf(),
            forall|n: Seq<char>|
                #[trigger] final(self).owner(n) == owner_after_up(
                    old(self).owner(n),
                    spec_names(tools@),
                    plugin.0@,
                    n,
                ),
            final(self).plugins == old(self).plugins,
            final(self).sessions == old(self).sessions,
            final(self).pending_approvals == old(self).pending_approvals,
    {
        let ghost start = *self;
        let mut i: usize = 0;
        while i < tools.len()
            invariant
                i <= tools@.len(),
                self.wf(),
                self.plugins == start.plugins,
                self.sessions == start.sessions,
                self.pending_approvals == start.pending_approvals,
                forall|n: Seq<char>|
                    #[trigger] self.owner(n) == owner_after_up(
                        start.owner(n),
                        spec_names(tools@.subrange(0, i as int)),
                        plugin.0@,
                        n,
                    ),
            decreases tools@.len() - i,
        {
            let ghost prev = *self;
            let name = tools[i].name.clone();
            let ghost nm = name@;
            assoc_set(&mut self.tools, name, plugin.copy());
            proof {
                let names_i = spec_names(tools@.subrange(0, i as int));
                let names_n = spec_names(tools@.subrange(0, i + 1));
                assert(names_n =~= names_i.push(nm));
                assert forall|n: Seq<char>|
                    #[trigger] self.owner(n) == owner_after_up(start.owner(n), names_n, plugin.0@, n) by {
                    if n == nm {
                        assert(names_n.contains(n)) by {
                            assert(names_n[i as int] == n);
                        }
                    } else {
                        assert(prev.owner(n) == owner_after_up(start.owner(n), names_i, plugin.0@, n));
                        assert(names_n.contains(n) == names_i.contains(n)) by {
                            if names_n.contains(n) {
                                let j = choose|j: int| 0 <= j < names_n.len() && names_n[j] == n;
                                assert(j < i);
                                assert(names_i[j] == n);
                            }
                            if names_i.contains(n) {
                                let j = choose|j: int| 0 <= j < names_i.len() && names_i[j] == n;
                                assert(names_n[j] == n);
                            }
                        }
                    }
                }
            }
            i = i + 1;
        }
        proof {
            assert(tools@.subrange(0, tools@.len() as int) =~= tools@);
        }
    }

    /// Removes every tool owned by `plugin` from the registry.
    fn drop_tools_of(&mut self, plugin: &PluginId)
        requires
            old(self).wf(),
        ensures
            final(self).wf(),
            forall|n: Seq<char>|
                #[trigger] final(self).owner(n) == owner_after_down(old(self).owner(n), plugin.0@),
            final(self).plugins == old(self).plugins,
            final(self).sessions == old(self).sessions,
            final(self).pending_approvals == old(self).pending_approvals,
    {
        let ghost old_t = keyed(self.tools@);
        let mut kept: Vec<(String, PluginId)> = Vec::new();
        let ghost mut idx: Seq<int> = Seq::empty();
        let mut i: usize = 0;
        while i < self.tools.len()
            invariant
                old_t == keyed(self.tools@),
                distinct_keys(old_t),
                i <= self.tools@.len(),
                idx.len() == kept@.len(),
                forall|t: int| 0 <= t < idx.len() ==> 0 <= #[trigger] idx[t] < i,
                forall|t: int|
                    0 <= t < idx.len() ==> #[trigger] kept@[t] == self.tools@[idx[t]],
                forall|a: int, b: int| 0 <= a < b < idx.len() ==> idx[a] < idx[b],
                forall|t: int|
                    0 <= t < idx.len() ==> (#[trigger] self.tools@[idx[t]]).1.0@ != plugin.0@,
                forall|j: int|
                    0 <= j < i && (#[trigger] self.tools@[j]).1.0@ != plugin.0@ ==> exists|t: int|
                        0 <= t < idx.len() && idx[t] == j,
            decreases self.tools@.len() - i,
        {
            let ghost idx_before = idx;
            if !str_eq(self.tools[i].1.0.as_str(), plugin.0.as_str()) {
                let entry = (self.tools[i].0.clone(), self.tools[i].1.copy());
                kept.push(entry);
                proof {
                    idx = idx.push(i as int);
                    assert(kept@[kept@.len() - 1] == self.tools@[i as int]);
                }
            }
            proof {
                assert forall|j: int|
                    0 <= j < i + 1 && (#[trigger] self.tools@[j]).1.0@ != plugin.0@ implies exists|t: int|
                    0 <= t < idx.len() && idx[t] == j by {
                    if j == i {
                        assert(idx[idx.len() - 1] == j);
                    } else {
                        let t = choose|t: int| 0 <= t < idx_before.len() && idx_before[t] == j;
                        assert(idx[t] == idx_before[t]);
                    }
                }
            }
            i = i + 1;
        }
        let ghost new_t = keyed(kept@);
        proof {
            assert(distinct_keys(new_t)) by {
                assert forall|a: int, b: int|
                    0 <= a < new_t.len() && 0 <= b < new_t.len() && a != b implies new_t[a].0
                    != new_t[b].0 by {
                    assert(new_t[a].0 == old_t[idx[a]].0);
                    assert(new_t[b].0 == old_t[idx[b]].0);
                    if a < b {
                        assert(idx[a] < idx[b]);
                    } else {
                        assert(idx[b] < idx[a]);
                    }
                }
            }
        }
        let ghost start = *self;
        self.tools = kept;
        proof {
            assert forall|n: Seq<char>| #[trigger] self.owner(n) == owner_after_down(start.owner(n), plugin.0@) by {
                if crate::assoc::has_key(old_t, n) {
                    let j = choose|j: int| 0 <= j < old_t.len() && #[trigger] old_t[j].0 == n;
                    lemma_lookup_at(old_t, j);
                    assert(old_t[j].1 == start.tools@[j].1);
                    if start.tools@[j].1.0@ != plugin.0@ {
                        let t = choose|t: int| 0 <= t < idx.len() && idx[t] == j;
                        assert(new_t[t] == old_t[j]);
                        lemma_lookup_at(new_t, t);
                    } else {
                        assert forall|t: int| 0 <= t < new_t.len() implies #[trigger] new_t[t].0 != n by {
                            assert(new_t[t] == old_t[idx[t]]);
                            if idx[t] != j {
                                assert(old_t[idx[t]].0 != old_t[j].0);
                            }
                        }
                    }
                } else {
                    assert forall|t: int| 0 <= t < new_t.len() implies #[trigger] new_t[t].0 != n by {
                        assert(new_t[t] == old_t[idx[t]]);
                    }
                }
            }
        }
    }

    /// Registers `child` as a new child session of `parent`.
    pub fn register_child(&mut self, child: SessionId, parent: SessionId)
        ensures
            ({
                let m1 = contexts(old(self).sessions@).insert(
                    child.0,
                    ContextView {
                        id: child.0,
                        parent: Some(parent.0),
                        history: seq![],
                        spawned: seq![],
                    },
                );
                contexts(final(self).sessions@) == if m1.contains_key(parent.0) {
                    m1.insert(
                        parent.0,
                        ContextView { spawned: m1[parent.0].spawned.push(child.0), ..m1[parent.0] },
                    )
                } else {
                    m1
                }
            }),
            final(self).tools == old(self).tools,
            final(self).plugins == old(self).plugins,
            final(self).pending_approvals == old(self).pending_approvals,
    {
        let ghost before = self.sessions@;
        let ctx = AgentContext::child(child, parent);
        proof {
            assert(ctx@.history =~= Seq::<MessageView>::empty());
            assert(ctx@.spawned =~= Seq::<u64>::empty());
        }
        self.sessions.insert(child.0, ctx);
        let ghost mid = self.sessions@;
        proof {
            assert(contexts(mid) =~= contexts(before).insert(
                child.0,
                ContextView { id: child.0, parent: Some(parent.0), history: seq![], spawned: seq![] },
            ));
        }
        match self.sessions.remove(&parent.0) {
            Some(mut p) => {
                let ghost p0 = p@;
                p.spawned.push(child);
                proof {
                    assert(p@.spawned =~= p0.spawned.push(child.0));
                }
                self.sessions.insert(parent.0, p);
                proof {
                    let m1 = contexts(mid);
                    assert(contexts(self.sessions@) =~= m1.insert(
                        parent.0,
                        ContextView { spawned: m1[parent.0].spawned.push(child.0), ..m1[parent.0] },
                    ));
                }
            },
            None => {},
        }
    }

    /// A session and all its transitive descendants, breadth-first, the
    /// session itself first.
    pub fn subtree(&self, root: SessionId) -> (r: Vec<SessionId>)
        requires
            walk_finishes(self.kids(), root.0),
        ensures
            ids_view(r@) == collected(self.kids(), root.0),
    {
        let ghost kids = self.kids();
        let ghost total = walk_length(kids, root.0);
        let mut out: Vec<SessionId> = Vec::new();
        out.push(root);
        let mut i: usize = 0;
        let ghost mut k: nat = 0;
        proof {
            assert(ids_view(out@) =~= seq![root.0]);
        }
        while i < out.len()
            invariant
                kids == self.kids(),
                walk_done(kids, root.0, total),
                i <= out@.len(),
                walk(kids, root.0, k) == (ids_view(out@), i as nat),
            decreases total - k,
        {
            proof {
                if k >= total {
                    lemma_walk_stays(kids, root.0, total, k);
                }
            }
            let ghost before = ids_view(out@);
            let cur = out[i].0;
            match self.sessions.get(&cur) {
                Some(ctx) => {
                    let mut j: usize = 0;
                    while j < ctx.spawned.len()
                        invariant
                            j <= ctx.spawned@.len(),
                            ids_view(out@) == before + ids_view(ctx.spawned@).subrange(0, j as int),
                        decreases ctx.spawned@.len() - j,
                    {
                        let ghost prev_out = out@;
                        out.push(ctx.spawned[j]);
                        proof {
                            assert(ids_view(out@) =~= ids_view(prev_out).push(ctx.spawned@[j as int].0));
                        }
                        j = j + 1;
                        proof {
                            assert(ids_view(out@) =~= before + ids_view(ctx.spawned@).subrange(
                                0,
                                j as int,
                            ));
                        }
                    }
                    proof {
                        assert(ids_view(ctx.spawned@).subrange(0, j as int) =~= ids_view(
                            ctx.spawned@,
                        ));
                        assert(before[i as int] == cur);
                        assert(kids(cur) == ids_view(ctx.spawned@));
                    }
                },
                None => {
                    proof {
                        assert(before[i as int] == cur);
                        assert(ids_view(out@) =~= before + kids(cur));
                    }
                },
            }
            i = i + 1;
            proof {
                k = k + 1;
            }
        }
        proof {
            assert(walk_done(kids, root.0, k));
            if k <= total {
                lemma_walk_stays(kids, root.0, k, total);
            } else {
                lemma_walk_stays(kids, root.0, total, k);
            }
        }
        out
    }
}

impl Default for SystemState {
    fn default() -> (r: SystemState)
        ensures
            r.wf(),
            r.sessions@ == Map::<u64, AgentContext>::empty(),
            r.tools@.len() == 0,
            r.plugins@.len() == 0,
            r.pending_approvals@ == Map::<u64, SessionId>::empty(),
    {
        SystemState::new()
    }
}

// ── laws ────────────────────────────────────────────────────────────────────

/// A plugin that comes up and then goes down leaves no tool behind: every
/// tool it advertised, and every tool it already owned, is unregistered;
/// every other tool keeps its owner.
pub proof fn law_plugin_up_then_down(
    before: Option<Seq<char>>,
    names: Seq<Seq<char>>,
    p: Seq<char>,
    name: Seq<char>,
)
    ensures
        owner_after_down(owner_after_up(before, names, p, name), p) == if names.contains(name)
            || before == Some(p) {
            None
        } else {
            before
        },
{
}

/// A tool call put on hold for approval and then answered leaves the pending
/// table as it would be had the call never been held.
pub proof fn law_approval_pending_then_resolved(
    pending: Map<u64, SessionId>,
    action: u64,
    session: SessionId,
)
    ensures
        pending.insert(action, session).remove(action) == pending.remove(action),
{
    assert(pending.insert(action, session).remove(action) =~= pending.remove(action));
}

/// `subtree` collects the session itself first, then every child of every
/// collected session, and nothing but children of sessions it collected
/// before: exactly the session and its transitive descendants.
pub proof fn law_subtree_collects_descendants(state: &SystemState, root: u64)
    requires
        walk_finishes(state.kids(), root),
    ensures
        walk_shape(
            state.kids(),
            root,
            collected(state.kids(), root),
            collected(state.kids(), root).len(),
        ),
{
    lemma_collected_shape(state.kids(), root);
}

/// When the spawn links below `root` form a tree (no cycle, no session
/// reached twice; `desc` lists its sessions), `subtree` may be called on
/// `root`: its walk finishes, and it returns `root` first and then every
/// descendant of `root` exactly once, breadth-first.
pub proof fn law_subtree_on_a_tree(state: &SystemState, root: u64, desc: Seq<u64>)
    requires
        tree_below(state.kids(), root, desc),
    ensures
        walk_finishes(state.kids(), root),
        collected(state.kids(), root).no_duplicates(),
        walk_shape(
            state.kids(),
            root,
            collected(state.kids(), root),
            collected(state.kids(), root).len(),
        ),
{
    lemma_tree_walk_finishes(state.kids(), root, desc);
    lemma_collected_shape(state.kids(), root);
}

/// A prompt to an unknown session opens a root session holding just that
/// prompt; to a known session it appends the prompt and keeps the rest.
pub proof fn law_prompt_opens_or_extends(prev: Option<ContextView>, sid: u64, text: Seq<char>)
    ensures
        prev is None ==> prompted(prev, sid, text).parent is None && prompted(
            prev,
            sid,
            text,
        ).history.len() == 1,
        prev matches Some(c) ==> prompted(prev, sid, text).history == c.history.push(
            prompt_message(text),
        ) && prompted(prev, sid, text).parent == c.parent && prompted(prev, sid, text).spawned
            == c.spawned,
{
}

/// A prompt `text` always ends up as the last message of its session, as a
/// user message holding exactly that text: appended to the history of a
/// known session (its parent and sub-agents untouched), or as the whole
/// history of a new root session.
pub proof fn law_prompt_is_recorded(prev: Option<ContextView>, sid: u64, text: Seq<char>)
    ensures
        prompted(prev, sid, text).history.len() >= 1,
        prompted(prev, sid, text).history.last() == MessageView::User(seq![BlockView::Text(text)]),
        prev is None ==> prompted(prev, sid, text) == (ContextView {
            id: sid,
            parent: None,
            history: seq![MessageView::User(seq![BlockView::Text(text)])],
            spawned: Seq::empty(),
        }),
        prev matches Some(c) ==> prompted(prev, sid, text).history == c.history.push(
            MessageView::User(seq![BlockView::Text(text)]),
        ) && prompted(prev, sid, text).id == c.id && prompted(prev, sid, text).parent == c.parent
            && prompted(prev, sid, text).spawned == c.spawned,
{
    match prev {
        Some(c) => {},
        None => {
            assert(prompted(prev, sid, text).spawned =~= Seq::<u64>::empty());
        },
    }
}

} // verus!
