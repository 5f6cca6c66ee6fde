//! The decisions of the plugin supervisor: the tool registry, the live
//! plugins and their restart policies, tool calls held for approval, and
//! where each tool call goes.
//!
//! Every handler takes the supervisor's state and one incoming message and
//! returns what to do; the caller performs it (emits events, sends on
//! channels, spawns and kills processes).
use std::collections::HashMap;
use vstd::prelude::*;
use crate::assoc::{assoc_remove, assoc_set, distinct_keys, find_key, has_key, keyed, lookup, lemma_lookup_at};
use crate::json::{JsonValue, JsonView};
use crate::policy::{Decision, PolicyEngine, decide};
use crate::text::{str_eq, has_prefix};
use crate::types::{ActionId, PluginId, SessionId, ToolCall, ToolCallView, ToolSpec, copy_specs};
use crate::state::{owner_after_down, owner_after_up, spec_names};

verus! {

broadcast use vstd::std_specs::hash::group_hash_axioms;

/// When a plugin whose process exited is started again.
#[derive(Clone, Copy, Debug, PartialEq, Eq, Structural)]
pub enum RestartPolicy {
    Always,
    OnFailure,
    Never,
}

/// A tool call held until the user answers.
#[derive(Debug)]
pub struct PendingApproval {
    pub session: SessionId,
    pub call: ToolCall,
}

/// The supervisor's bookkeeping.
#[derive(Debug)]
pub struct SupervisorCore {
    /// Tool name → owning plugin.
    pub tool_registry: Vec<(String, PluginId)>,
    /// Plugins with a live client, by name.
    pub live: Vec<(String, ())>,
    /// Plugins with a configuration (restartable), by name.
    pub configs: Vec<(String, RestartPolicy)>,
    /// Action number → held call.
    pub pending_approvals: HashMap<u64, PendingApproval>,
}

/// What to do with a requested or approved tool call.
#[derive(Debug)]
pub enum Reaction {
    /// Dispatch the call now.
    Dispatch { session: SessionId, call: ToolCall },
    /// Emit `ApprovalPending` for the held call.
    AwaitApproval { session: SessionId, call: ToolCall },
    /// Answer the call with `ToolResult { ok: false, "denied by user" }`.
    Deny { session: SessionId, action: ActionId },
    /// Nothing to do.
    Nothing,
}

/// Where a direct call (bypassing policy) goes.
#[derive(Debug)]
pub enum DirectRoute {
    /// To this live plugin.
    Plugin(PluginId),
    /// The owning plugin is not live: answer with this error text.
    Fail(String),
}

impl SupervisorCore {
    /// Each table names each key at most once.
    pub open spec fn wf(&self) -> bool {
        &&& distinct_keys(keyed(self.tool_registry@))
        &&& distinct_keys(keyed(self.live@))
        &&& distinct_keys(keyed(self.configs@))
    }

    /// The owner of tool `name`, by plugin name.
    pub open spec fn owner(&self, name: Seq<char>) -> Option<Seq<char>> {
        match lookup(keyed(self.tool_registry@), name) {
            Some(p) => Some(p.0@),
            None => None,
        }
    }

    /// Plugin `p` has a live client.
    pub open spec fn is_live(&self, p: Seq<char>) -> bool {
        has_key(keyed(self.live@), p)
    }

    /// The restart policy of plugin `p`, if it has a configuration.
    pub open spec fn restart_of(&self, p: Seq<char>) -> Option<RestartPolicy> {
        lookup(keyed(self.configs@), p)
    }

    /// The held calls, by action number, as (session, call) models.
    pub open spec fn held(&self) -> Map<u64, (u64, ToolCallView)> {
        self.pending_approvals@.map_values(|p: PendingApproval| (p.session.0, p.call@))
    }

    /// An empty supervisor.
    pub fn new() -> (r: SupervisorCore)
        ensures
            r.wf(),
            r.tool_registry@.len() == 0,
            r.live@.len() == 0,
            r.configs@.len() == 0,
            r.pending_approvals@ == Map::<u64, PendingApproval>::empty(),
    {
        SupervisorCore {
            tool_registry: Vec::new(),
            live: Vec::new(),
            configs: Vec::new(),
            pending_approvals: HashMap::new(),
        }
    }

    /// A tool call was requested: the policy decides whether it runs now or
    /// is held until the user answers.
    pub fn on_tool_requested(
        &mut self,
        policy: &PolicyEngine,
        session: SessionId,
        call: ToolCall,
    ) -> (r: Reaction)
        ensures
            final(self).tool_registry == old(self).tool_registry,
            final(self).live == old(self).live,
            final(self).configs == old(self).configs,
            decide(policy.config.mode, policy.config.table(), call.tool@) == Decision::Allow ==> {
                &&& r matches Reaction::Dispatch { session: s, call: c } && s == session && c@
                    == call@
                &&& final(self).held() == old(self).held()
            },
            decide(policy.config.mode, policy.config.table(), call.tool@) == Decision::Ask ==> {
                &&& r matches Reaction::AwaitApproval { session: s, call: c } && s == session
                    && c@ == call@
                &&& final(self).held() == old(self).held().insert(call.id.0, (session.0, call@))
            },
    {
        match policy.check(call.tool.as_str()) {
            Decision::Allow => Reaction::Dispatch { session, call },
            Decision::Ask => {
                let held = PendingApproval { session, call: call.copy() };
                self.pending_approvals.insert(call.id.0, held);
                proof {
                    assert(self.held() =~= old(self).held().insert(call.id.0, (session.0, call@)));
                }
                Reaction::AwaitApproval { session, call }
            },
        }
    }

    /// The user answered an approval request: a held call is released
    /// (dispatched when granted, denied otherwise), and either way it is
    /// answered to the session that made the call, whichever session the
    /// answer came from; an unknown action is ignored.
    pub fn on_user_approval(&mut self, _from: SessionId, action: ActionId, granted: bool) -> (r:
        Reaction)
        ensures
            final(self).tool_registry == old(self).tool_registry,
            final(self).live == old(self).live,
            final(self).configs == old(self).configs,
            final(self).held() == old(self).held().remove(action.0),
            old(self).held().contains_key(action.0) ==> if granted {
                r matches Reaction::Dispatch { session: s, call: c } && s.0 == old(
                    self,
                ).held()[action.0].0 && c@ == old(self).held()[action.0].1
            } else {
                r matches Reaction::Deny { session: s, action: a } && s.0 == old(self).held()[action.0].0
                    && a == action
            },
            !old(self).held().contains_key(action.0) ==> r is Nothing,
    {
        match self.pending_approvals.remove(&action.0) {
            Some(pending) => {
                proof {
                    assert(self.held() =~= old(self).held().remove(action.0));
                }
                if granted {
                    Reaction::Dispatch { session: pending.session, call: pending.call }
                } else {
                    Reaction::Deny { session: pending.session, action }
                }
            },
            None => {
                proof {
                    assert(self.held() =~= old(self).held().remove(action.0));
                }
                Reaction::Nothing
            },
        }
    }

    /// Drops every tool owned by `plugin` from the registry.
    fn unregister_tools_of(&mut self, plugin: &PluginId)
        requires
            old(self).wf(),
        ensures
            final(self).wf(),
            forall|n: Seq<char>|
                #[trigger] final(self).owner(n) == owner_after_down(old(self).owner(n), plugin.0@),
            final(self).live == old(self).live,
            final(self).configs == old(self).configs,
            final(self).pending_approvals == old(self).pending_approvals,
    {
        let ghost old_t = keyed(self.tool_registry@);
        let mut kept: Vec<(String, PluginId)> = Vec::new();
        let ghost mut idx: Seq<int> = Seq::empty();
        let mut i: usize = 0;
        while i < self.tool_registry.len()
            invariant
                old_t == keyed(self.tool_registry@),
                distinct_keys(old_t),
                i <= self.tool_registry@.len(),
                idx.len() == kept@.len(),
                forall|t: int| 0 <= t < idx.len() ==> 0 <= #[trigger] idx[t] < i,
                forall|t: int|
                    0 <= t < idx.len() ==> #[trigger] kept@[t] == self.tool_registry@[idx[t]],
                forall|a: int, b: int| 0 <= a < b < idx.len() ==> idx[a] < idx[b],
                forall|t: int|
                    0 <= t < idx.len() ==> (#[trigger] self.tool_registry@[idx[t]]).1.0@
                        != plugin.0@,
                forall|j: int|
                    0 <= j < i && (#[trigger] self.tool_registry@[j]).1.0@ != plugin.0@
                        ==> exists|t: int| 0 <= t < idx.len() && idx[t] == j,
            decreases self.tool_registry@.len() - i,
        {
            let ghost idx_before = idx;
            if !str_eq(self.tool_registry[i].1.0.as_str(), plugin.0.as_str()) {
                let entry = (self.tool_registry[i].0.clone(), self.tool_registry[i].1.copy());
                kept.push(entry);
                proof {
                    idx = idx.push(i as int);
                    assert(kept@[kept@.len() - 1] == self.tool_registry@[i as int]);
                }
            }
            proof {
                assert forall|j: int|
                    0 <= j < i + 1 && (#[trigger] self.tool_registry@[j]).1.0@ != plugin.0@
                        implies exists|t: int| 0 <= t < idx.len() && idx[t] == j by {
                    if j == i {
                        assert(idx[idx.len() - 1] == j);
                    } else {
                        let t = choose|t: int| 0 <= t < idx_before.len() && idx_before[t] == j;
                        assert(idx[t] == idx_before[t]);
                    }
                }
            }
            i = i + 1;
        }
        let ghost new_t = keyed(kept@);
        proof {
            assert(distinct_keys(new_t)) by {
                assert forall|a: int, b: int|
                    0 <= a < new_t.len() && 0 <= b < new_t.len() && a != b implies new_t[a].0
                    != new_t[b].0 by {
                    assert(new_t[a].0 == old_t[idx[a]].0);
                    assert(new_t[b].0 == old_t[idx[b]].0);
                    if a < b {
                        assert(idx[a] < idx[b]);
                    } else {
                        assert(idx[b] < idx[a]);
                    }
                }
            }
        }
        let ghost start = *self;
        self.tool_registry = kept;
        proof {
            assert forall|n: Seq<char>|
                #[trigger] self.owner(n) == owner_after_down(start.owner(n), plugin.0@) by {
                if has_key(old_t, n) {
                    let j = choose|j: int| 0 <= j < old_t.len() && #[trigger] old_t[j].0 == n;
                    lemma_lookup_at(old_t, j);
                    assert(old_t[j].1 == start.tool_registry@[j].1);
                    if start.tool_registry@[j].1.0@ != plugin.0@ {
                        let t = choose|t: int| 0 <= t < idx.len() && idx[t] == j;
                        assert(new_t[t] == old_t[j]);
                        lemma_lookup_at(new_t, t);
                    } else {
                        assert forall|t: int| 0 <= t < new_t.len() implies #[trigger] new_t[t].0
                            != n by {
                            assert(new_t[t] == old_t[idx[t]]);
                            if idx[t] != j {
                                assert(old_t[idx[t]].0 != old_t[j].0);
                            }
                        }
                    }
                } else {
                    assert forall|t: int| 0 <= t < new_t.len() implies #[trigger] new_t[t].0 != n by {
                        assert(new_t[t] == old_t[idx[t]]);
                    }
                }
            }
        }
    }

    /// A plugin started and advertised `tools`: its tools are registered to
    /// it, it is live, and its configuration is kept for restarts.
    pub fn on_plugin_started(&mut self, plugin: &PluginId, restart: RestartPolicy, tools: &Vec<ToolSpec>)
        requires
            old(self).wf(),
        ensures
            final(self).wf(),
            forall|n: Seq<char>|
                #[trigger] final(self).owner(n) == owner_after_up(
                    old(self).owner(n),
                    spec_names(tools@),
                    plugin.0@,
                    n,
                ),
            final(self).is_live(plugin.0@),
            forall|q: Seq<char>| q != plugin.0@ ==> #[trigger] final(self).is_live(q) == old(self).is_live(q),
            final(self).restart_of(plugin.0@) == Some(restart),
            forall|q: Seq<char>|
                q != plugin.0@ ==> #[trigger] final(self).restart_of(q) == old(self).restart_of(q),
            final(self).pending_approvals == old(self).pending_approvals,
    {
        let ghost start = *self;
        let mut i: usize = 0;
        while i < tools.len()
            invariant
                i <= tools@.len(),
                self.wf(),
                self.live == start.live,
                self.configs == start.configs,
                self.pending_approvals == start.pending_approvals,
                forall|n: Seq<char>|
                    #[trigger] self.owner(n) == owner_after_up(
                        start.owner(n),
                        spec_names(tools@.subrange(0, i as int)),
                        plugin.0@,
                        n,
                    ),
            decreases tools@.len() - i,
        {
            let ghost prev = *self;
            let name = tools[i].name.clone();
            let ghost nm = name@;
            assoc_set(&mut self.tool_registry, name, plugin.copy());
            proof {
                let names_i = spec_names(tools@.subrange(0, i as int));
                let names_n = spec_names(tools@.subrange(0, i + 1));
                assert(names_n =~= names_i.push(nm));
                assert forall|n: Seq<char>|
                    #[trigger] self.owner(n) == owner_after_up(start.owner(n), names_n, plugin.0@, n) by {
                    if n == nm {
                        assert(names_n[i as int] == n);
                    } else {
                        assert(prev.owner(n) == owner_after_up(start.owner(n), names_i, plugin.0@, n));
                        assert(names_n.contains(n) == names_i.contains(n)) by {
                            if names_n.contains(n) {
                                let j = choose|j: int| 0 <= j < names_n.len() && names_n[j] == n;
                                assert(names_i[j] == n);
                            }
                            if names_i.contains(n) {
                                let j = choose|j: int| 0 <= j < names_i.len() && names_i[j] == n;
                                assert(names_n[j] == n);
                            }
                        }
                    }
                }
            }
            i = i + 1;
        }
        proof {
            assert(tools@.subrange(0, tools@.len() as int) =~= tools@);
        }
        let ghost mid = *self;
        assoc_set(&mut self.configs, plugin.0.clone(), restart);
        assoc_set(&mut self.live, plugin.0.clone(), ());
        proof {
            assert forall|n: Seq<char>|
                #[trigger] self.owner(n) == owner_after_up(start.owner(n), spec_names(tools@), plugin.0@, n) by {
                assert(mid.owner(n) == owner_after_up(start.owner(n), spec_names(tools@), plugin.0@, n));
            }
            assert forall|q: Seq<char>| q != plugin.0@ implies #[trigger] self.is_live(q) == start.is_live(q) by {
                lemma_has_key_lookup(keyed(self.live@), q);
                lemma_has_key_lookup(keyed(start.live@), q);
            }
            lemma_has_key_lookup(keyed(self.live@), plugin.0@);
        }
    }

    /// The supervisor kills a plugin for good: its configuration, tools and
    /// live client are dropped. Returns whether it was live (then
    /// `PluginDown` is emitted).
    pub fn on_kill(&mut self, plugin: &PluginId) -> (was_live: bool)
        requires
            old(self).wf(),
        ensures
            final(self).wf(),
            was_live == old(self).is_live(plugin.0@),
            forall|n: Seq<char>|
                #[trigger] final(self).owner(n) == owner_after_down(old(self).owner(n), plugin.0@),
            !final(self).is_live(plugin.0@),
            forall|q: Seq<char>| q != plugin.0@ ==> #[trigger] final(self).is_live(q) == old(self).is_live(q),
            final(self).restart_of(plugin.0@) is None,
            forall|q: Seq<char>|
                q != plugin.0@ ==> #[trigger] final(self).restart_of(q) == old(self).restart_of(q),
            final(self).pending_approvals == old(self).pending_approvals,
    {
        let ghost start = *self;
        assoc_remove(&mut self.configs, plugin.0.as_str());
        let ghost a = *self;
        self.unregister_tools_of(plugin);
        let ghost b = *self;
        let had = assoc_remove(&mut self.live, plugin.0.as_str());
        proof {
            assert forall|n: Seq<char>|
                #[trigger] self.owner(n) == owner_after_down(start.owner(n), plugin.0@) by {
                assert(b.owner(n) == owner_after_down(a.owner(n), plugin.0@));
            }
            lemma_has_key_lookup(keyed(start.live@), plugin.0@);
            lemma_has_key_lookup(keyed(self.live@), plugin.0@);
            assert forall|q: Seq<char>| q != plugin.0@ implies #[trigger] self.is_live(q) == start.is_live(q) by {
                lemma_has_key_lookup(keyed(self.live@), q);
                lemma_has_key_lookup(keyed(start.live@), q);
            }
        }
        had.is_some()
    }

    /// A plugin is reloaded in place: its tools and live client are dropped
    /// (its configuration stays). Returns (was it live, start it again now):
    /// it is started again here only when it has a configuration whose
    /// policy is not `Always` (an `Always` plugin restarts when its process exits).
    pub fn on_hot_reload(&mut self, plugin: &PluginId) -> (r: (bool, bool))
        requires
            old(self).wf(),
        ensures
            final(self).wf(),
            r.0 == old(self).is_live(plugin.0@),
            r.1 == (old(self).restart_of(plugin.0@) matches Some(p) && p != RestartPolicy::Always),
            forall|n: Seq<char>|
                #[trigger] final(self).owner(n) == owner_after_down(old(self).owner(n), plugin.0@),
            !final(self).is_live(plugin.0@),
            forall|q: Seq<char>| q != plugin.0@ ==> #[trigger] final(self).is_live(q) == old(self).is_live(q),
            final(self).configs == old(self).configs,
            final(self).pending_approvals == old(self).pending_approvals,
    {
        let ghost start = *self;
        self.unregister_tools_of(plugin);
        let ghost mid = *self;
        let had = assoc_remove(&mut self.live, plugin.0.as_str());
        proof {
            assert forall|n: Seq<char>|
                #[trigger] self.owner(n) == owner_after_down(start.owner(n), plugin.0@) by {
                assert(mid.owner(n) == owner_after_down(start.owner(n), plugin.0@));
            }
            lemma_has_key_lookup(keyed(start.live@), plugin.0@);
            lemma_has_key_lookup(keyed(self.live@), plugin.0@);
            assert forall|q: Seq<char>| q != plugin.0@ implies #[trigger] self.is_live(q) == start.is_live(q) by {
                lemma_has_key_lookup(keyed(self.live@), q);
                lemma_has_key_lookup(keyed(start.live@), q);
            }
        }
        let restart_now = match find_key(&self.configs, plugin.0.as_str()) {
            Some(i) => {
                proof {
                    lemma_lookup_at(keyed(self.configs@), i as int);
                }
                self.configs[i].1 != RestartPolicy::Always
            },
            None => false,
        };
        (had.is_some(), restart_now)
    }

    /// A plugin's process exited: its tools and live client are dropped.
    /// Returns (was it live, restart it): restarted only when its policy is `Always`.
    pub fn on_plugin_died(&mut self, plugin: &PluginId) -> (r: (bool, bool))
        requires
            old(self).wf(),
        ensures
            final(self).wf(),
            r.0 == old(self).is_live(plugin.0@),
            r.1 == (old(self).restart_of(plugin.0@) == Some(RestartPolicy::Always)),
            forall|n: Seq<char>|
                #[trigger] final(self).owner(n) == owner_after_down(old(self).owner(n), plugin.0@),
            !final(self).is_live(plugin.0@),
            forall|q: Seq<char>| q != plugin.0@ ==> #[trigger] final(self).is_live(q) == old(self).is_live(q),
            final(self).configs == old(self).configs,
            final(self).pending_approvals == old(self).pending_approvals,
    {
        let (was_live, other) = self.on_hot_reload(plugin);
        let restart = match find_key(&self.configs, plugin.0.as_str()) {
            Some(i) => {
                proof {
                    lemma_lookup_at(keyed(self.configs@), i as int);
                }
                self.configs[i].1 == RestartPolicy::Always
            },
            None => false,
        };
        (was_live, restart)
    }

    /// Where a direct call of `tool` goes: its owner when live; otherwise
    /// the error text it is answered with.
    pub fn route_direct_call(&self, tool: &str) -> (r: DirectRoute)
        requires
            self.wf(),
        ensures
            match self.owner(tool@) {
                Some(p) => if self.is_live(p) {
                    r matches DirectRoute::Plugin(q) && q.0@ == p
                } else {
                    r matches DirectRoute::Fail(e) && e@ == "plugin for '"@ + tool@ + "' not live"@
                },
                None => r matches DirectRoute::Fail(e) && e@ == "unknown tool: "@ + tool@,
            },
    {
        match self.live_owner(tool) {
            Ok(p) => DirectRoute::Plugin(p),
            Err(false) => DirectRoute::Fail(
                String::from_str("plugin for '").concat(tool).concat("' not live"),
            ),
            Err(true) => DirectRoute::Fail(String::from_str("unknown tool: ").concat(tool)),
        }
    }

    /// The owner of `tool` when it is live; `Err(true)` when no plugin owns
    /// it, `Err(false)` when its owner is not live.
    pub fn live_owner(&self, tool: &str) -> (r: Result<PluginId, bool>)
        requires
            self.wf(),
        ensures
            match self.owner(tool@) {
                Some(p) => if self.is_live(p) {
                    r matches Ok(q) && q.0@ == p
                } else {
                    r == Err::<PluginId, bool>(false)
                },
                None => r == Err::<PluginId, bool>(true),
            },
    {
        match find_key(&self.tool_registry, tool) {
            Some(i) => {
                proof {
                    lemma_lookup_at(keyed(self.tool_registry@), i as int);
                }
                let pid = self.tool_registry[i].1.copy();
                match find_key(&self.live, pid.0.as_str()) {
                    Some(j) => {
                        proof {
                            assert(keyed(self.live@)[j as int].0 == pid.0@);
                        }
                        Ok(pid)
                    },
                    None => {
                        proof {
                            assert forall|j: int| 0 <= j < keyed(self.live@).len() implies #[trigger] keyed(self.live@)[j].0 != pid.0@ by {
                                assert(keyed(self.live@)[j].0 == self.live@[j].0@);
                            }
                        }
                        Err(false)
                    },
                }
            },
            None => {
                proof {
                    assert forall|j: int| 0 <= j < keyed(self.tool_registry@).len() implies #[trigger] keyed(self.tool_registry@)[j].0 != tool@ by {
                        assert(keyed(self.tool_registry@)[j].0 == self.tool_registry@[j].0@);
                    }
                }
                Err(true)
            },
        }
    }
}

/// `has_key` and `lookup` agree.
pub proof fn lemma_has_key_lookup<W>(v: Seq<(Seq<char>, W)>, k: Seq<char>)
    ensures
        has_key(v, k) == lookup(v, k) is Some,
{
}

// ── laws ────────────────────────────────────────────────────────────────────

/// A call held for approval is released exactly once: holding it and then
/// answering leaves the held table as it was without that action.
pub proof fn law_held_call_released_once(
    held: Map<u64, (u64, ToolCallView)>,
    action: u64,
    entry: (u64, ToolCallView),
)
    ensures
        held.insert(action, entry).remove(action) == held.remove(action),
        !held.insert(action, entry).remove(action).contains_key(action),
{
    assert(held.insert(action, entry).remove(action) =~= held.remove(action));
}

/// After a kill, a hot reload or a death, no tool belongs to the plugin.
pub proof fn law_no_tool_of_stopped_plugin(before: Option<Seq<char>>, p: Seq<char>)
    ensures
        owner_after_down(before, p) != Some(p),
{
}

} // verus!
