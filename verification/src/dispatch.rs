//! Where an approved tool call goes: the built-in tools that the daemon
//! answers itself (evolution, scheduling, councils, event log, messaging,
//! mesh, sub-agents) and the plugin tools that the registry routes.
use vstd::prelude::*;
use crate::json::{JsonValue, JsonView, NumberView};
use crate::supervisor::SupervisorCore;
use crate::text::str_eq;
use crate::types::{EvolutionId, PluginId, SessionId, ToolCall, ToolCallView, ToolOutput};

verus! {

/// Which routes to other tasks are wired up.
#[derive(Clone, Copy, Debug)]
pub struct DispatchEnv {
    pub rollback_ready: bool,
    pub schedule_ready: bool,
    pub council_ready: bool,
}

/// What to do with a tool call.
#[derive(Debug)]
pub enum DispatchPlan {
    /// Parse the arguments as an evolution proposal; emit it and acknowledge.
    ProposeEvolution { evolution_id: EvolutionId },
    /// Forward to the evolution applier for rollback.
    Rollback { evolution_id: EvolutionId },
    /// Answer at once with this result.
    Reply { ok: bool, content: JsonValue },
    /// Answer with the live system prompt.
    ReadSoul,
    /// Forward (session, id, tool, args) to the scheduler.
    Schedule,
    /// Forward (session, id, args) to the council handler.
    Council,
    /// Read and summarise the event log.
    QueryEventLog { hours: u64, types: Option<String>, max_events: u64 },
    /// Emit a peer message and acknowledge it.
    SendToAgent { to: SessionId, body: String, msg_id: u64 },
    /// Answer with the peer list.
    ListMeshPeers,
    /// Install the daemon on another machine over ssh.
    BootstrapNode {
        target_ip: String,
        ssh_password: String,
        ssh_user: String,
        api_key: String,
        repo_url: String,
    },
    /// Start a sub-agent.
    SpawnAgent { prompt: String, system: Option<String> },
    /// Call the tool on this plugin.
    CallPlugin { plugin: PluginId },
}

/// Model of a plan.
pub enum PlanView {
    ProposeEvolution(u64),
    Rollback(u64),
    Reply(bool, JsonView),
    ReadSoul,
    Schedule,
    Council,
    QueryEventLog(u64, Option<Seq<char>>, u64),
    SendToAgent(u64, Seq<char>, u64),
    ListMeshPeers,
    BootstrapNode(Seq<char>, Seq<char>, Seq<char>, Seq<char>, Seq<char>),
    SpawnAgent(Seq<char>, Option<Seq<char>>),
    CallPlugin(Seq<char>),
}

impl View for DispatchPlan {
    type V = PlanView;

    open spec fn view(&self) -> PlanView {
        match self {
            DispatchPlan::ProposeEvolution { evolution_id } => PlanView::ProposeEvolution(evolution_id.0),
            DispatchPlan::Rollback { evolution_id } => PlanView::Rollback(evolution_id.0),
            DispatchPlan::Reply { ok, content } => PlanView::Reply(*ok, content@),
            DispatchPlan::ReadSoul => PlanView::ReadSoul,
            DispatchPlan::Schedule => PlanView::Schedule,
            DispatchPlan::Council => PlanView::Council,
            DispatchPlan::QueryEventLog { hours, types, max_events } => PlanView::QueryEventLog(
                *hours,
                match types {
                    Some(t) => Some(t@),
                    None => None,
                },
                *max_events,
            ),
            DispatchPlan::SendToAgent { to, body, msg_id } => PlanView::SendToAgent(to.0, body@, *msg_id),
            DispatchPlan::ListMeshPeers => PlanView::ListMeshPeers,
            DispatchPlan::BootstrapNode { target_ip, ssh_password, ssh_user, api_key, repo_url } =>
                PlanView::BootstrapNode(target_ip@, ssh_password@, ssh_user@, api_key@, repo_url@),
            DispatchPlan::SpawnAgent { prompt, system } => PlanView::SpawnAgent(
                prompt@,
                match system {
                    Some(s) => Some(s@),
                    None => None,
                },
            ),
            DispatchPlan::CallPlugin { plugin } => PlanView::CallPlugin(plugin.0@),
        }
    }
}

/// A string argument, or `default` when it is missing or not a string.
pub open spec fn str_or(v: JsonView, default: Seq<char>) -> Seq<char> {
    match v.as_str() {
        Some(s) => s,
        None => default,
    }
}

/// An integer argument, or `default`, capped at `cap`.
pub open spec fn u64_capped(v: JsonView, default: u64, cap: u64) -> u64 {
    let n = match v.as_u64() {
        Some(n) => n,
        None => default,
    };
    if n < cap {
        n
    } else {
        cap
    }
}

/// A failed result carrying a message.
pub open spec fn failure(msg: Seq<char>) -> PlanView {
    PlanView::Reply(false, JsonView::Str(msg))
}

/// The repository a bootstrapped node installs from by default.
pub open spec fn default_repo() -> Seq<char> {
    "https://github.com/buckster123/ApexOS.git"@
}

/// Where the call `call` goes, given its owner in the registry (`owner`),
/// whether that owner is live, and which routes are wired.
pub open spec fn plan_for(
    call: ToolCallView,
    env: DispatchEnv,
    owner: Option<Seq<char>>,
    owner_live: bool,
) -> PlanView {
    let t = call.tool;
    let a = call.args;
    if t == "propose_evolution"@ {
        PlanView::ProposeEvolution(call.id)
    } else if t == "rollback_evolution"@ {
        match a.at("evolution_id"@).as_u64() {
            None => failure("missing evolution_id"@),
            Some(e) => if env.rollback_ready {
                PlanView::Rollback(e)
            } else {
                failure("rollback not available"@)
            },
        }
    } else if t == "read_soul_md"@ {
        PlanView::ReadSoul
    } else if t == "schedule_task"@ || t == "list_schedules"@ || t == "cancel_schedule"@ {
        if env.schedule_ready {
            PlanView::Schedule
        } else {
            failure("scheduler not initialized"@)
        }
    } else if t == "convene_council"@ {
        if env.council_ready {
            PlanView::Council
        } else {
            failure("council not initialized"@)
        }
    } else if t == "query_event_log"@ {
        PlanView::QueryEventLog(
            u64_capped(a.at("hours"@), 24, 168),
            a.at("types"@).as_str(),
            u64_capped(a.at("max"@), 500, 2000),
        )
    } else if t == "send_to_agent"@ {
        match a.at("session_id"@).as_u64() {
            Some(to) => PlanView::SendToAgent(to, str_or(a.at("message"@), ""@), call.id),
            None => failure("send_to_agent: missing or invalid session_id"@),
        }
    } else if t == "list_mesh_peers"@ {
        PlanView::ListMeshPeers
    } else if t == "bootstrap_node"@ {
        let ip = str_or(a.at("target_ip"@), ""@);
        let pw = str_or(a.at("ssh_password"@), ""@);
        if ip.len() == 0 || pw.len() == 0 {
            failure("bootstrap_node: target_ip and ssh_password are required"@)
        } else {
            PlanView::BootstrapNode(
                ip,
                pw,
                str_or(a.at("ssh_user"@), "apexos"@),
                str_or(a.at("api_key"@), ""@),
                str_or(a.at("repo_url"@), default_repo()),
            )
        }
    } else if t == "agent_spawn"@ {
        PlanView::SpawnAgent(str_or(a.at("prompt"@), ""@), a.at("system"@).as_str())
    } else {
        match owner {
            Some(p) => if owner_live {
                PlanView::CallPlugin(p)
            } else {
                failure("unknown tool: "@ + t)
            },
            None => failure("unknown tool: "@ + t),
        }
    }
}

/// A string argument of `args`, or `default`.
fn arg_str_or(args: &JsonValue, key: &str, default: &str) -> (r: String)
    ensures
        r@ == str_or(args@.at(key@), default@),
{
    match args.get_str(key) {
        Some(s) => s.clone(),
        None => default.to_owned(),
    }
}

/// An integer argument of `args`, or `default`, capped at `cap`.
fn arg_u64_capped(args: &JsonValue, key: &str, default: u64, cap: u64) -> (r: u64)
    ensures
        r == u64_capped(args@.at(key@), default, cap),
{
    let n = match args.get_u64(key) {
        Some(n) => n,
        None => default,
    };
    if n < cap {
        n
    } else {
        cap
    }
}

fn fail(msg: &str) -> (r: DispatchPlan)
    ensures
        r@ == failure(msg@),
{
    DispatchPlan::Reply { ok: false, content: JsonValue::string(msg) }
}

/// Where the call goes (the policy has already allowed it).
pub fn plan_dispatch(core: &SupervisorCore, env: DispatchEnv, call: &ToolCall) -> (r: DispatchPlan)
    requires
        core.wf(),
    ensures
        r@ == plan_for(
            call@,
            env,
            core.owner(call.tool@),
            match core.owner(call.tool@) {
                Some(p) => core.is_live(p),
                None => false,
            },
        ),
{
    let t = call.tool.as_str();
    let a = &call.args;
    if str_eq(t, "propose_evolution") {
        DispatchPlan::ProposeEvolution { evolution_id: EvolutionId(call.id.0) }
    } else if str_eq(t, "rollback_evolution") {
        match a.get_u64("evolution_id") {
            None => fail("missing evolution_id"),
            Some(e) => if env.rollback_ready {
                DispatchPlan::Rollback { evolution_id: EvolutionId(e) }
            } else {
                fail("rollback not available")
            },
        }
    } else if str_eq(t, "read_soul_md") {
        DispatchPlan::ReadSoul
    } else if str_eq(t, "schedule_task") || str_eq(t, "list_schedules") || str_eq(
        t,
        "cancel_schedule",
    ) {
        if env.schedule_ready {
            DispatchPlan::Schedule
        } else {
            fail("scheduler not initialized")
        }
    } else if str_eq(t, "convene_council") {
        if env.council_ready {
            DispatchPlan::Council
        } else {
            fail("council not initialized")
        }
    } else if str_eq(t, "query_event_log") {
        let types = match a.get_str("types") {
            Some(s) => Some(s.clone()),
            None => None,
        };
        DispatchPlan::QueryEventLog {
            hours: arg_u64_capped(a, "hours", 24, 168),
            types,
            max_events: arg_u64_capped(a, "max", 500, 2000),
        }
    } else if str_eq(t, "send_to_agent") {
        match a.get_u64("session_id") {
            Some(to) => DispatchPlan::SendToAgent {
                to: SessionId(to),
                body: arg_str_or(a, "message", ""),
                msg_id: call.id.0,
            },
            None => fail("send_to_agent: missing or invalid session_id"),
        }
    } else if str_eq(t, "list_mesh_peers") {
        DispatchPlan::ListMeshPeers
    } else if str_eq(t, "bootstrap_node") {
        let target_ip = arg_str_or(a, "target_ip", "");
        let ssh_password = arg_str_or(a, "ssh_password", "");
        if target_ip.as_str().unicode_len() == 0 || ssh_password.as_str().unicode_len() == 0 {
            fail("bootstrap_node: target_ip and ssh_password are required")
        } else {
            DispatchPlan::BootstrapNode {
                target_ip,
                ssh_password,
                ssh_user: arg_str_or(a, "ssh_user", "apexos"),
                api_key: arg_str_or(a, "api_key", ""),
                repo_url: arg_str_or(a, "repo_url", "https://github.com/buckster123/ApexOS.git"),
            }
        }
    } else if str_eq(t, "agent_spawn") {
        let system = match a.get_str("system") {
            Some(s) => Some(s.clone()),
            None => None,
        };
        DispatchPlan::SpawnAgent { prompt: arg_str_or(a, "prompt", ""), system }
    } else {
        match core.live_owner(t) {
            Ok(p) => DispatchPlan::CallPlugin { plugin: p },
            Err(_) => DispatchPlan::Reply {
                ok: false,
                content: JsonValue::Str(String::from_str("unknown tool: ").concat(t)),
            },
        }
    }
}

/// The acknowledgement of a queued evolution proposal, as a model.
pub open spec fn proposal_ack_json(evolution_id: u64) -> JsonView {
    JsonView::Object(
        seq![
            ("status"@, JsonView::Str("proposed"@)),
            ("evolution_id"@, JsonView::Number(NumberView::PosInt(evolution_id))),
            ("note"@, JsonView::Str("proposal queued for apply"@)),
        ],
    )
}

/// The acknowledgement of a sent peer message, as a model.
pub open spec fn message_ack_json(msg_id: u64) -> JsonView {
    JsonView::Object(
        seq![
            ("status"@, JsonView::Str("sent"@)),
            ("msg_id"@, JsonView::Number(NumberView::PosInt(msg_id))),
        ],
    )
}

/// The acknowledgement of a queued evolution proposal:
/// `{"status": "proposed", "evolution_id": id, "note": "proposal queued for apply"}`.
pub fn proposal_ack(evolution_id: EvolutionId) -> (r: JsonValue)
    ensures
        r@ == proposal_ack_json(evolution_id.0),
{
    let mut fields: Vec<(String, JsonValue)> = Vec::new();
    fields.push(("status".to_owned(), JsonValue::string("proposed")));
    fields.push(("evolution_id".to_owned(), JsonValue::uint(evolution_id.0)));
    fields.push(("note".to_owned(), JsonValue::string("proposal queued for apply")));
    let r = JsonValue::object(fields);
    proof {
        assert(crate::json::pairs_view(fields@) =~= proposal_ack_json(evolution_id.0)->Object_0);
    }
    r
}

/// The acknowledgement of a sent peer message: `{"status": "sent", "msg_id": id}`.
pub fn message_ack(msg_id: u64) -> (r: JsonValue)
    ensures
        r@ == message_ack_json(msg_id),
{
    let mut fields: Vec<(String, JsonValue)> = Vec::new();
    fields.push(("status".to_owned(), JsonValue::string("sent")));
    fields.push(("msg_id".to_owned(), JsonValue::uint(msg_id)));
    let r = JsonValue::object(fields);
    proof {
        assert(crate::json::pairs_view(fields@) =~= message_ack_json(msg_id)->Object_0);
    }
    r
}

/// A task that calls are forwarded to.
#[derive(Clone, Copy, Debug, PartialEq, Eq, Structural)]
pub enum Forward {
    Rollback,
    Schedule,
    Council,
}

/// The text a forwarded call is answered with (failed) when its task no
/// longer takes calls.
pub open spec fn forward_failure_text(f: Forward) -> Seq<char> {
    match f {
        Forward::Rollback => "rollback channel closed"@,
        Forward::Schedule => "scheduler not available"@,
        Forward::Council => "council handler not available"@,
    }
}

/// The failure text for a call whose task no longer takes calls.
pub fn forward_failure(f: Forward) -> (r: &'static str)
    ensures
        r@ == forward_failure_text(f),
{
    match f {
        Forward::Rollback => "rollback channel closed",
        Forward::Schedule => "scheduler not available",
        Forward::Council => "council handler not available",
    }
}

/// The `read_soul_md` answer: the live system prompt, or a note that it is
/// not loaded yet.
pub fn soul_reply(soul: Option<String>) -> (r: ToolOutput)
    ensures
        r.ok,
        r.content@ == JsonView::Str(
            match soul {
                Some(s) => s@,
                None => "soul.md not yet initialized"@,
            },
        ),
{
    match soul {
        Some(s) => ToolOutput { ok: true, content: JsonValue::Str(s) },
        None => ToolOutput { ok: true, content: JsonValue::string("soul.md not yet initialized") },
    }
}

/// The `list_mesh_peers` answer: the peers file's text, or a note that no
/// peer is registered when it cannot be read.
pub fn peers_reply(text: Option<String>) -> (r: ToolOutput)
    ensures
        r.ok,
        r.content@ == JsonView::Str(
            match text {
                Some(t) => t@,
                None => "# no peers registered\n"@,
            },
        ),
{
    match text {
        Some(t) => ToolOutput { ok: true, content: JsonValue::Str(t) },
        None => ToolOutput { ok: true, content: JsonValue::string("# no peers registered\n") },
    }
}

/// The answer to a plugin call: the plugin's output, or a failed result
/// carrying the error's text when the call itself failed.
pub fn plugin_reply(result: Result<ToolOutput, String>) -> (r: ToolOutput)
    ensures
        match result {
            Ok(o) => r == o,
            Err(e) => !r.ok && r.content@ == JsonView::Str(e@),
        },
{
    match result {
        Ok(o) => o,
        Err(e) => ToolOutput { ok: false, content: JsonValue::Str(e) },
    }
}

/// A rollback call names the evolution to roll back in its arguments:
/// with the rollback route wired and an integer `evolution_id` argument `e`,
/// the plan rolls back evolution `e`, whatever the call's own action id,
/// owner or liveness; without the argument it fails, asking for it.
pub proof fn law_rollback_targets_named_evolution(
    call: ToolCallView,
    env: DispatchEnv,
    owner: Option<Seq<char>>,
    live: bool,
    e: u64,
)
    requires
        call.tool == "rollback_evolution"@,
    ensures
        call.args.at("evolution_id"@).as_u64() == Some(e) && env.rollback_ready ==> plan_for(
            call,
            env,
            owner,
            live,
        ) == PlanView::Rollback(e),
        call.args.at("evolution_id"@).as_u64() is None ==> plan_for(call, env, owner, live)
            == PlanView::Reply(false, JsonView::Str("missing evolution_id"@)),
{
    reveal_strlit("rollback_evolution");
    reveal_strlit("propose_evolution");
    assert("rollback_evolution"@ != "propose_evolution"@) by {
        assert("rollback_evolution"@[0] != "propose_evolution"@[0]);
    }
}

} // verus!
