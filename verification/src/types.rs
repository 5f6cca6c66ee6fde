//! The load-bearing types: identifiers, the event enum, tool calls and
//! results, conversation messages, agent contexts, and the self-evolution
//! proposal types.
use vstd::prelude::*;
use crate::json::{JsonValue, JsonView};

verus! {

// ── identifiers ─────────────────────────────────────────────────────────────

/// A conversation session.
#[derive(Clone, Copy, Debug, PartialEq, Eq, Hash, Structural)]
pub struct SessionId(pub u64);

/// One tool call within a turn.
#[derive(Clone, Copy, Debug, PartialEq, Eq, Hash, Structural)]
pub struct ActionId(pub u64);

/// A plugin (MCP server) by name.
#[derive(Clone, Debug, PartialEq, Eq, Hash)]
pub struct PluginId(pub String);

/// An evolution proposal/apply/rollback triple.
#[derive(Clone, Copy, Debug, PartialEq, Eq, Hash, Structural)]
pub struct EvolutionId(pub u64);

impl PluginId {
    /// A copy of this id.
    pub fn copy(&self) -> (r: PluginId)
        ensures
            r == *self,
    {
        PluginId(self.0.clone())
    }
}

// ── tool call / result ──────────────────────────────────────────────────────

/// A tool call requested by the agent.
#[derive(Debug)]
pub struct ToolCall {
    pub id: ActionId,
    pub tool: String,
    pub args: JsonValue,
    /// Set by the policy engine, not by the agent.
    pub needs_approval: bool,
}

/// What a tool returned.
#[derive(Debug)]
pub struct ToolOutput {
    pub ok: bool,
    pub content: JsonValue,
}

/// A tool that a plugin advertises.
#[derive(Debug)]
pub struct ToolSpec {
    pub name: String,
    pub description: String,
    pub input_schema: JsonValue,
}

/// Model of a tool call.
pub struct ToolCallView {
    pub id: u64,
    pub tool: Seq<char>,
    pub args: JsonView,
    pub needs_approval: bool,
}

/// Model of a tool output.
pub struct ToolOutputView {
    pub ok: bool,
    pub content: JsonView,
}

/// Model of a tool spec.
pub struct ToolSpecView {
    pub name: Seq<char>,
    pub description: Seq<char>,
    pub input_schema: JsonView,
}

impl View for ToolCall {
    type V = ToolCallView;

    open spec fn view(&self) -> ToolCallView {
        ToolCallView {
            id: self.id.0,
            tool: self.tool@,
            args: self.args@,
            needs_approval: self.needs_approval,
        }
    }
}

impl View for ToolOutput {
    type V = ToolOutputView;

    open spec fn view(&self) -> ToolOutputView {
        ToolOutputView { ok: self.ok, content: self.content@ }
    }
}

impl View for ToolSpec {
    type V = ToolSpecView;

    open spec fn view(&self) -> ToolSpecView {
        ToolSpecView {
            name: self.name@,
            description: self.description@,
            input_schema: self.input_schema@,
        }
    }
}

/// The models of a sequence of tool specs.
pub open spec fn specs_view(v: Seq<ToolSpec>) -> Seq<ToolSpecView> {
    v.map_values(|t: ToolSpec| t@)
}

/// The models of a sequence of tool calls.
pub open spec fn calls_view(v: Seq<ToolCall>) -> Seq<ToolCallView> {
    v.map_values(|t: ToolCall| t@)
}

impl ToolCall {
    /// A copy of this call.
    pub fn copy(&self) -> (r: ToolCall)
        ensures
            r@ == self@,
    {
        ToolCall {
            id: self.id,
            tool: self.tool.clone(),
            args: self.args.deep_copy(),
            needs_approval: self.needs_approval,
        }
    }
}

impl ToolOutput {
    /// A copy of this output.
    pub fn copy(&self) -> (r: ToolOutput)
        ensures
            r@ == self@,
    {
        ToolOutput { ok: self.ok, content: self.content.deep_copy() }
    }
}

impl ToolSpec {
    /// A copy of this spec.
    pub fn copy(&self) -> (r: ToolSpec)
        ensures
            r@ == self@,
    {
        ToolSpec {
            name: self.name.clone(),
            description: self.description.clone(),
            input_schema: self.input_schema.deep_copy(),
        }
    }
}

/// A copy of a list of tool specs.
pub fn copy_specs(v: &Vec<ToolSpec>) -> (r: Vec<ToolSpec>)
    ensures
        specs_view(r@) == specs_view(v@),
{
    let mut r: Vec<ToolSpec> = Vec::new();
    let mut i: usize = 0;
    while i < v.len()
        invariant
            i <= v@.len(),
            r@.len() == i,
            forall|j: int| 0 <= j < i ==> #[trigger] r@[j]@ == v@[j]@,
        decreases v@.len() - i,
    {
        r.push(v[i].copy());
        i = i + 1;
    }
    assert(specs_view(r@) =~= specs_view(v@));
    r
}

// ── conversation messages ───────────────────────────────────────────────────

/// One block of a message. Thinking blocks must be kept with their
/// signature across tool round-trips.
#[derive(Debug)]
pub enum ContentBlock {
    Text { text: String },
    Thinking { thinking: String, signature: String },
    ToolUse { id: String, name: String, input: JsonValue },
    ToolResult { tool_use_id: String, content: JsonValue, is_error: bool },
}

/// A conversation message.
#[derive(Debug)]
pub enum Message {
    User { content: Vec<ContentBlock> },
    Assistant { content: Vec<ContentBlock> },
}

/// Model of a content block.
pub enum BlockView {
    Text(Seq<char>),
    Thinking(Seq<char>, Seq<char>),
    ToolUse(Seq<char>, Seq<char>, JsonView),
    ToolResult(Seq<char>, JsonView, bool),
}

/// Model of a message.
pub enum MessageView {
    User(Seq<BlockView>),
    Assistant(Seq<BlockView>),
}

impl View for ContentBlock {
    type V = BlockView;

    open spec fn view(&self) -> BlockView {
        match self {
            ContentBlock::Text { text } => BlockView::Text(text@),
            ContentBlock::Thinking { thinking, signature } => BlockView::Thinking(
                thinking@,
                signature@,
            ),
            ContentBlock::ToolUse { id, name, input } => BlockView::ToolUse(id@, name@, input@),
            ContentBlock::ToolResult { tool_use_id, content, is_error } => BlockView::ToolResult(
                tool_use_id@,
                content@,
                *is_error,
            ),
        }
    }
}

/// The models of a sequence of blocks.
pub open spec fn blocks_view(v: Seq<ContentBlock>) -> Seq<BlockView> {
    v.map_values(|b: ContentBlock| b@)
}

impl View for Message {
    type V = MessageView;

    open spec fn view(&self) -> MessageView {
        match self {
            Message::User { content } => MessageView::User(blocks_view(content@)),
            Message::Assistant { content } => MessageView::Assistant(blocks_view(content@)),
        }
    }
}

/// The models of a sequence of messages.
pub open spec fn messages_view(v: Seq<Message>) -> Seq<MessageView> {
    v.map_values(|m: Message| m@)
}

impl ContentBlock {
    /// A copy of this block.
    pub fn copy(&self) -> (r: ContentBlock)
        ensures
            r@ == self@,
    {
        match self {
            ContentBlock::Text { text } => ContentBlock::Text { text: text.clone() },
            ContentBlock::Thinking { thinking, signature } => ContentBlock::Thinking {
                thinking: thinking.clone(),
                signature: signature.clone(),
            },
            ContentBlock::ToolUse { id, name, input } => ContentBlock::ToolUse {
                id: id.clone(),
                name: name.clone(),
                input: input.deep_copy(),
            },
            ContentBlock::ToolResult { tool_use_id, content, is_error } => ContentBlock::ToolResult {
                tool_use_id: tool_use_id.clone(),
                content: content.deep_copy(),
                is_error: *is_error,
            },
        }
    }
}

/// A copy of a list of blocks.
pub fn copy_blocks(v: &Vec<ContentBlock>) -> (r: Vec<ContentBlock>)
    ensures
        blocks_view(r@) == blocks_view(v@),
{
    let mut r: Vec<ContentBlock> = Vec::new();
    let mut i: usize = 0;
    while i < v.len()
        invariant
            i <= v@.len(),
            r@.len() == i,
            forall|j: int| 0 <= j < i ==> #[trigger] r@[j]@ == v@[j]@,
        decreases v@.len() - i,
    {
        r.push(v[i].copy());
        i = i + 1;
    }
    assert(blocks_view(r@) =~= blocks_view(v@));
    r
}

impl Message {
    /// A copy of this message.
    pub fn copy(&self) -> (r: Message)
        ensures
            r@ == self@,
    {
        match self {
            Message::User { content } => Message::User { content: copy_blocks(content) },
            Message::Assistant { content } => Message::Assistant { content: copy_blocks(content) },
        }
    }

    /// A user message holding one text block.
    pub fn user_text(text: String) -> (r: Message)
        ensures
            r@ == MessageView::User(seq![BlockView::Text(text@)]),
    {
        let mut content: Vec<ContentBlock> = Vec::new();
        content.push(ContentBlock::Text { text });
        let r = Message::User { content };
        assert(blocks_view(content@) =~= seq![BlockView::Text(text@)]);
        r
    }
}

/// A copy of a list of messages.
pub fn copy_messages(v: &Vec<Message>) -> (r: Vec<Message>)
    ensures
        messages_view(r@) == messages_view(v@),
{
    let mut r: Vec<Message> = Vec::new();
    let mut i: usize = 0;
    while i < v.len()
        invariant
            i <= v@.len(),
            r@.len() == i,
            forall|j: int| 0 <= j < i ==> #[trigger] r@[j]@ == v@[j]@,
        decreases v@.len() - i,
    {
        r.push(v[i].copy());
        i = i + 1;
    }
    assert(messages_view(r@) =~= messages_view(v@));
    r
}

// ── agent context ───────────────────────────────────────────────────────────

/// One session of the agent tree. The whole hierarchy is the `parent` field:
/// `None` for a root session, `Some(id)` for a child.
#[derive(Debug)]
pub struct AgentContext {
    pub id: SessionId,
    pub parent: Option<SessionId>,
    pub history: Vec<Message>,
    /// Children, for the cancellation cascade.
    pub spawned: Vec<SessionId>,
}

/// Model of an agent context.
pub struct ContextView {
    pub id: u64,
    pub parent: Option<u64>,
    pub history: Seq<MessageView>,
    pub spawned: Seq<u64>,
}

/// The numbers of a sequence of session ids.
pub open spec fn ids_view(v: Seq<SessionId>) -> Seq<u64> {
    v.map_values(|s: SessionId| s.0)
}

impl View for AgentContext {
    type V = ContextView;

    open spec fn view(&self) -> ContextView {
        ContextView {
            id: self.id.0,
            parent: match self.parent {
                Some(p) => Some(p.0),
                None => None,
            },
            history: messages_view(self.history@),
            spawned: ids_view(self.spawned@),
        }
    }
}

impl AgentContext {
    /// A root session: no parent, empty history, no children.
    pub fn root(id: SessionId) -> (r: AgentContext)
        ensures
            r.id == id,
            r.parent is None,
            r.history@.len() == 0,
            r.spawned@.len() == 0,
    {
        AgentContext { id, parent: None, history: Vec::new(), spawned: Vec::new() }
    }

    /// A child session of `parent`: empty history, no children.
    pub fn child(id: SessionId, parent: SessionId) -> (r: AgentContext)
        ensures
            r.id == id,
            r.parent == Some(parent),
            r.history@.len() == 0,
            r.spawned@.len() == 0,
    {
        AgentContext { id, parent: Some(parent), history: Vec::new(), spawned: Vec::new() }
    }

    /// Whether this is a root session.
    pub fn is_root(&self) -> (r: bool)
        ensures
            r == self.parent is None,
    {
        self.parent.is_none()
    }
}

// ── the event enum ──────────────────────────────────────────────────────────

/// The one event type that flows on the bus, into the event log and out to
/// frontends.
#[derive(Debug)]
pub enum Event {
    UserPrompt { session: SessionId, text: String },
    UserApproval { session: SessionId, action: ActionId, granted: bool },
    UserCancel { session: SessionId },
    AgentText { session: SessionId, delta: String },
    AgentThinking { session: SessionId, delta: String },
    ToolRequested { session: SessionId, call: ToolCall },
    TurnComplete { session: SessionId },
    ToolResult { session: SessionId, call: ActionId, output: ToolOutput },
    PluginUp { plugin: PluginId, tools: Vec<ToolSpec> },
    PluginDown { plugin: PluginId, reason: String },
    ApprovalPending { session: SessionId, call: ToolCall },
    Error { session: Option<SessionId>, message: String },
}

// ── self-evolution ──────────────────────────────────────────────────────────

/// Policy mode as it appears in evolution proposals.
#[derive(Clone, Copy, Debug, PartialEq, Eq, Structural)]
pub enum PolicyMode {
    Suggest,
    AutoEdit,
    Yolo,
}

impl Default for PolicyMode {
    fn default() -> (r: PolicyMode)
        ensures
            r == PolicyMode::Suggest,
    {
        PolicyMode::Suggest
    }
}

/// A runtime subsystem that can be reloaded.
#[derive(Clone, Copy, Debug, PartialEq, Eq, Structural)]
pub enum Subsystem {
    Plugins,
    Policy,
    Agent,
    Gateway,
}

/// Discrete, auditable change proposals; each maps to one config artifact
/// and one hot-reload action.
#[derive(Debug)]
pub enum EvolutionProposal {
    RegisterMcpServer { name: String, command: String, env: Vec<(String, String)>, reason: String },
    UnregisterMcpServer { name: String, reason: String },
    UpdatePolicyRule { tool_pattern: String, new_mode: PolicyMode, reason: String },
    UpdateSystemPrompt { content: String, reason: String },
    HotReloadSubsystem { subsystem: Subsystem },
}

} // verus!
