//! One assistant turn as a state machine: the provider's chunks build a
//! round (its assistant blocks and the tool calls it asks for); a round
//! with tool calls waits for one result per call, and those results come
//! back as the next user message.
//!
//! The caller streams chunks in, emits the events this module hands back,
//! and feeds the bus events it receives to a `ResultCollector`.
use vstd::prelude::*;
use crate::assoc::{
    first_with, find_id, index_of, lemma_first_with_at, lemma_first_with_none, lemma_first_with_push,
    lemma_remove_distinct,
};
use crate::json::{JsonValue, JsonView};
use crate::types::{
    ActionId, SessionId, ToolCall, ToolOutput, ContentBlock, Message, Event, BlockView,
    MessageView, ToolCallView, blocks_view, messages_view, calls_view,
};

verus! {

/// One piece of a streamed provider response.
#[derive(Debug)]
pub enum Chunk {
    /// Incremental text, for live display only.
    TextDelta(String),
    /// Incremental thinking, for live display only.
    ThinkingDelta(String),
    /// A finished text block.
    TextBlock(String),
    /// A finished thinking block with its signature.
    ThinkingBlock { thinking: String, signature: String },
    /// The model asks for a tool call.
    ToolUse { id: String, name: String, input: JsonValue },
    /// The response is over.
    Done,
}

/// What the caller does after a chunk.
#[derive(Debug)]
pub enum ChunkStep {
    /// Emit this event on the bus, then read on.
    Emit(Event),
    /// Read on.
    Continue,
    /// The response is over: end the round.
    Done,
}

/// How a round ends.
#[derive(Debug)]
pub enum RoundEnd {
    /// No tool calls: emit this `TurnComplete` event; the turn is over.
    Complete(Event),
    /// Emit these `ToolRequested` events (one per call, in order), then
    /// collect one result per call.
    AwaitTools(Vec<Event>),
}

/// The ids of a list of tool calls.
pub open spec fn call_ids(calls: Seq<ToolCallView>) -> Seq<u64> {
    calls.map_values(|c: ToolCallView| c.id)
}

/// The provider tool-use ids, keyed by action id, as sequences.
pub open spec fn ids_map_view(m: Seq<(u64, String)>) -> Seq<(u64, Seq<char>)> {
    m.map_values(|p: (u64, String)| (p.0, p.1@))
}

/// The outputs received, keyed by action id, as models.
pub open spec fn outputs_view(m: Seq<(u64, ToolOutput)>) -> Seq<(u64, (bool, JsonView))> {
    m.map_values(|p: (u64, ToolOutput)| (p.0, (p.1.ok, p.1.content@)))
}

/// The result block for one call: the output received for it (or a failed
/// "missing result" output) under the provider's id of the call ("" when
/// unknown).
pub open spec fn result_block(
    id: u64,
    outputs: Seq<(u64, (bool, JsonView))>,
    ids: Seq<(u64, Seq<char>)>,
) -> BlockView {
    let out = match first_with(outputs, id) {
        Some(o) => o,
        None => (false, JsonView::Str("missing result"@)),
    };
    let api = match first_with(ids, id) {
        Some(a) => a,
        None => Seq::<char>::empty(),
    };
    BlockView::ToolResult(api, out.1, !out.0)
}

/// The result blocks for a round's calls: one per call, in call order.
pub open spec fn result_blocks(
    calls: Seq<ToolCallView>,
    outputs: Seq<(u64, (bool, JsonView))>,
    ids: Seq<(u64, Seq<char>)>,
) -> Seq<BlockView> {
    Seq::new(calls.len(), |i: int| result_block(calls[i].id, outputs, ids))
}

/// `ev` asks for `call` on behalf of `session`.
pub open spec fn requested(ev: Event, session: SessionId, call: ToolCallView) -> bool {
    match ev {
        Event::ToolRequested { session: s, call: c } => s == session && c@ == call,
        _ => false,
    }
}

/// The round ended the turn of `session`.
pub open spec fn completes(r: RoundEnd, session: SessionId) -> bool {
    match r {
        RoundEnd::Complete(Event::TurnComplete { session: s }) => s == session,
        _ => false,
    }
}

/// The round asks for `calls`, in order, on behalf of `session`.
pub open spec fn awaits(r: RoundEnd, session: SessionId, calls: Seq<ToolCallView>) -> bool {
    match r {
        RoundEnd::AwaitTools(evs) => evs@.len() == calls.len() && forall|i: int|
            0 <= i < evs@.len() ==> requested(#[trigger] evs@[i], session, calls[i]),
        _ => false,
    }
}

/// A turn across its rounds.
#[derive(Debug)]
pub struct Turn {
    pub session: SessionId,
    /// The conversation so far.
    pub history: Vec<Message>,
    /// The next action id to hand out (unique within the turn).
    pub next_id: u64,
    /// Action id → the provider's tool-use id.
    pub id_map: Vec<(u64, String)>,
    /// The assistant blocks of the round in progress.
    pub blocks: Vec<ContentBlock>,
    /// The tool calls of the round in progress.
    pub pending: Vec<ToolCall>,
}

impl Turn {
    /// Action ids handed out so far are below `next_id`, and every pending
    /// call has its provider id recorded.
    pub open spec fn wf(&self) -> bool {
        &&& self.next_id >= 1
        &&& forall|i: int| 0 <= i < self.id_map@.len() ==> #[trigger] self.id_map@[i].0 < self.next_id
        &&& forall|i: int, j: int|
            0 <= i < j < self.id_map@.len() ==> #[trigger] self.id_map@[i].0 != #[trigger] self.id_map@[j].0
        &&& forall|i: int, j: int|
            0 <= i < j < self.pending@.len() ==> #[trigger] self.pending@[i].id.0 != #[trigger] self.pending@[j].id.0
        &&& forall|i: int| 0 <= i < self.pending@.len() ==> #[trigger] self.pending@[i].id.0 < self.next_id
    }

    /// A new turn on `history`.
    pub fn new(session: SessionId, history: Vec<Message>) -> (r: Turn)
        ensures
            r.wf(),
            r.session == session,
            r.history@ == history@,
            r.next_id == 1,
            r.id_map@.len() == 0,
            r.blocks@.len() == 0,
            r.pending@.len() == 0,
            r.turn_ok(messages_view(history@)),
            !r.awaiting(messages_view(history@)),
    {
        let r = Turn { session, history, next_id: 1, id_map: Vec::new(), blocks: Vec::new(), pending: Vec::new() };
        proof {
            let h = messages_view(r.history@);
            assert(h.subrange(0, h.len() as int) =~= h);
            assert(h.subrange(h.len() as int, h.len() as int) =~= Seq::<MessageView>::empty());
            assert(blocks_view(r.blocks@) =~= Seq::<BlockView>::empty());
            assert(tool_use_ids(blocks_view(r.blocks@)).len() == 0);
        }
        r
    }

    /// Takes in one chunk of the response. Deltas are handed back as
    /// events; finished blocks join the round (thinking blocks keep their
    /// signature); a tool use gets the next action id, joins the round as a
    /// tool-use block, and becomes a pending call.
    pub fn on_chunk(&mut self, chunk: Chunk) -> (r: ChunkStep)
        requires
            old(self).wf(),
            chunk is ToolUse ==> old(self).next_id < u64::MAX,
        ensures
            final(self).wf(),
            final(self).session == old(self).session,
            final(self).history@ == old(self).history@,
            forall|h0: Seq<MessageView>|
                old(self).turn_ok(h0) && !old(self).awaiting(h0) ==> #[trigger] final(self).turn_ok(h0)
                    && !final(self).awaiting(h0),
            match chunk {
                Chunk::TextDelta(t) => {
                    &&& r matches ChunkStep::Emit(Event::AgentText { session, delta }) && session
                        == old(self).session && delta@ == t@
                    &&& *final(self) == *old(self)
                },
                Chunk::ThinkingDelta(t) => {
                    &&& r matches ChunkStep::Emit(Event::AgentThinking { session, delta }) && session
                        == old(self).session && delta@ == t@
                    &&& *final(self) == *old(self)
                },
                Chunk::TextBlock(text) => {
                    &&& r is Continue
                    &&& blocks_view(final(self).blocks@) == blocks_view(old(self).blocks@).push(
                        BlockView::Text(text@),
                    )
                    &&& final(self).pending@ == old(self).pending@
                    &&& final(self).id_map@ == old(self).id_map@
                    &&& final(self).next_id == old(self).next_id
                },
                Chunk::ThinkingBlock { thinking, signature } => {
                    &&& r is Continue
                    &&& blocks_view(final(self).blocks@) == blocks_view(old(self).blocks@).push(
                        BlockView::Thinking(thinking@, signature@),
                    )
                    &&& final(self).pending@ == old(self).pending@
                    &&& final(self).id_map@ == old(self).id_map@
                    &&& final(self).next_id == old(self).next_id
                },
                Chunk::ToolUse { id, name, input } => {
                    &&& r is Continue
                    &&& final(self).next_id == old(self).next_id + 1
                    &&& ids_map_view(final(self).id_map@) == ids_map_view(old(self).id_map@).push(
                        (old(self).next_id, id@),
                    )
                    &&& blocks_view(final(self).blocks@) == blocks_view(old(self).blocks@).push(
                        BlockView::ToolUse(id@, name@, input@),
                    )
                    &&& calls_view(final(self).pending@) == calls_view(old(self).pending@).push(
                        ToolCallView {
                            id: old(self).next_id,
                            tool: name@,
                            args: input@,
                            needs_approval: false,
                        },
                    )
                },
                Chunk::Done => {
                    &&& r is Done
                    &&& *final(self) == *old(self)
                },
            },
    {
        match chunk {
            Chunk::TextDelta(t) => ChunkStep::Emit(Event::AgentText { session: self.session, delta: t }),
            Chunk::ThinkingDelta(t) => ChunkStep::Emit(
                Event::AgentThinking { session: self.session, delta: t },
            ),
            Chunk::TextBlock(text) => {
                let ghost before = self.blocks@;
                self.blocks.push(ContentBlock::Text { text });
                proof {
                    assert(blocks_view(self.blocks@) =~= blocks_view(before).push(
                        self.blocks@.last()@,
                    ));
                    lemma_block_order(*old(self), *self, self.blocks@.last()@);
                }
                ChunkStep::Continue
            },
            Chunk::ThinkingBlock { thinking, signature } => {
                let ghost before = self.blocks@;
                self.blocks.push(ContentBlock::Thinking { thinking, signature });
                proof {
                    assert(blocks_view(self.blocks@) =~= blocks_view(before).push(
                        self.blocks@.last()@,
                    ));
                    lemma_block_order(*old(self), *self, self.blocks@.last()@);
                }
                ChunkStep::Continue
            },
            Chunk::ToolUse { id, name, input } => {
                let ghost old_self = *self;
                let ghost gid = id@;
                let ghost gname = name@;
                let ghost ginput = input@;
                let action = self.next_id;
                self.next_id = self.next_id + 1;
                self.id_map.push((action, id.clone()));
                let ghost before_blocks = self.blocks@;
                self.blocks.push(
                    ContentBlock::ToolUse { id, name: name.clone(), input: input.deep_copy() },
                );
                let ghost before_pending = self.pending@;
                self.pending.push(
                    ToolCall { id: ActionId(action), tool: name, args: input, needs_approval: false },
                );
                proof {
                    assert(ids_map_view(self.id_map@) =~= ids_map_view(old_self.id_map@).push(
                        (action, self.id_map@.last().1@),
                    ));
                    assert(blocks_view(self.blocks@) =~= blocks_view(before_blocks).push(
                        self.blocks@.last()@,
                    ));
                    assert(calls_view(self.pending@) =~= calls_view(before_pending).push(
                        self.pending@.last()@,
                    ));
                    assert forall|i: int, j: int|
                        0 <= i < j < self.id_map@.len() implies #[trigger] self.id_map@[i].0
                        != #[trigger] self.id_map@[j].0 by {
                        if j == self.id_map@.len() - 1 {
                            assert(self.id_map@[i] == old_self.id_map@[i]);
                        } else {
                            assert(self.id_map@[i] == old_self.id_map@[i]);
                            assert(self.id_map@[j] == old_self.id_map@[j]);
                        }
                    }
                    assert forall|i: int, j: int|
                        0 <= i < j < self.pending@.len() implies #[trigger] self.pending@[i].id.0
                        != #[trigger] self.pending@[j].id.0 by {
                        if j == self.pending@.len() - 1 {
                            assert(self.pending@[i] == old_self.pending@[i]);
                        } else {
                            assert(self.pending@[i] == old_self.pending@[i]);
                            assert(self.pending@[j] == old_self.pending@[j]);
                        }
                    }
                    assert forall|i: int| 0 <= i < self.id_map@.len() implies #[trigger] self.id_map@[i].0
                        < self.next_id by {
                        if i < old_self.id_map@.len() {
                            assert(self.id_map@[i] == old_self.id_map@[i]);
                        }
                    }
                    assert forall|i: int| 0 <= i < self.pending@.len() implies #[trigger] self.pending@[i].id.0
                        < self.next_id by {
                        if i < old_self.pending@.len() {
                            assert(self.pending@[i] == old_self.pending@[i]);
                        }
                    }
                    lemma_tool_use_order(old_self, *self, gid, gname, ginput);
                }
                ChunkStep::Continue
            },
            Chunk::Done => ChunkStep::Done,
        }
    }
}

/// Where a response ends: the index of its first `Done` (its length if none).
pub open spec fn first_done(cs: Seq<Chunk>) -> nat
    decreases cs.len(),
{
    if cs.len() == 0 {
        0
    } else if cs[0] is Done {
        0
    } else {
        1 + first_done(cs.drop_first())
    }
}

/// The chunks of a response that are read: those before its first `Done`.
pub open spec fn live_chunks(cs: Seq<Chunk>) -> Seq<Chunk> {
    cs.take(first_done(cs) as int)
}

/// The assistant blocks a run of chunks builds, in order.
pub open spec fn chunk_blocks(cs: Seq<Chunk>) -> Seq<BlockView>
    decreases cs.len(),
{
    if cs.len() == 0 {
        Seq::empty()
    } else {
        chunk_blocks(cs.drop_last()) + match cs.last() {
            Chunk::TextBlock(t) => seq![BlockView::Text(t@)],
            Chunk::ThinkingBlock { thinking, signature } => seq![
                BlockView::Thinking(thinking@, signature@),
            ],
            Chunk::ToolUse { id, name, input } => seq![BlockView::ToolUse(id@, name@, input@)],
            _ => Seq::empty(),
        }
    }
}

/// How many tool calls a run of chunks asks for.
pub open spec fn chunk_uses(cs: Seq<Chunk>) -> nat
    decreases cs.len(),
{
    if cs.len() == 0 {
        0
    } else {
        chunk_uses(cs.drop_last()) + if cs.last() is ToolUse {
            1nat
        } else {
            0nat
        }
    }
}

/// The tool calls a run of chunks asks for, numbered from `next`.
pub open spec fn chunk_calls(cs: Seq<Chunk>, next: nat) -> Seq<ToolCallView>
    decreases cs.len(),
{
    if cs.len() == 0 {
        Seq::empty()
    } else {
        chunk_calls(cs.drop_last(), next) + match cs.last() {
            Chunk::ToolUse { id, name, input } => seq![
                ToolCallView {
                    id: (next + chunk_uses(cs.drop_last())) as u64,
                    tool: name@,
                    args: input@,
                    needs_approval: false,
                },
            ],
            _ => Seq::empty(),
        }
    }
}

/// The provider ids of the tool calls a run of chunks asks for, keyed by
/// the action ids they get, numbered from `next`.
pub open spec fn chunk_ids(cs: Seq<Chunk>, next: nat) -> Seq<(u64, Seq<char>)>
    decreases cs.len(),
{
    if cs.len() == 0 {
        Seq::empty()
    } else {
        chunk_ids(cs.drop_last(), next) + match cs.last() {
            Chunk::ToolUse { id, name, input } => seq![((next + chunk_uses(cs.drop_last())) as u64, id@)],
            _ => Seq::empty(),
        }
    }
}

/// The provider ids of the tool-use blocks among `bs`, in order.
pub open spec fn tool_use_ids(bs: Seq<BlockView>) -> Seq<Seq<char>>
    decreases bs.len(),
{
    if bs.len() == 0 {
        Seq::empty()
    } else {
        tool_use_ids(bs.drop_last()) + match bs.last() {
            BlockView::ToolUse(id, _, _) => seq![id],
            _ => Seq::empty(),
        }
    }
}

/// A user message answers an assistant message: one tool result per tool
/// use of the assistant message, in order, under that tool use's id.
pub open spec fn answers(a: MessageView, u: MessageView) -> bool {
    match (a, u) {
        (MessageView::Assistant(ab), MessageView::User(ub)) => ub.len() == tool_use_ids(ab).len() && forall|
            i: int,
        |
            0 <= i < ub.len() ==> (#[trigger] ub[i]) is ToolResult && ub[i]->ToolResult_0 == tool_use_ids(
                ab,
            )[i],
        _ => false,
    }
}

/// Past its opening history, a turn's messages alternate assistant and
/// user, starting with an assistant message, and each user message answers
/// the assistant message before it.
pub open spec fn exchange(tail: Seq<MessageView>) -> bool {
    forall|j: int|
        0 <= j < tail.len() ==> if j % 2 == 0 {
            (#[trigger] tail[j]) is Assistant
        } else {
            answers(tail[j - 1], tail[j])
        }
}

/// The calls are recorded, in order, under the tool-use ids of `bs`.
pub open spec fn lined_up(bs: Seq<BlockView>, calls: Seq<ToolCallView>, ids: Seq<(u64, Seq<char>)>) -> bool {
    &&& calls.len() == tool_use_ids(bs).len()
    &&& forall|i: int|
        0 <= i < calls.len() ==> first_with(ids, (#[trigger] calls[i]).id) == Some(tool_use_ids(bs)[i])
}

/// Result blocks answer the calls: one tool result per call, in order,
/// under the id the call is recorded with.
pub open spec fn answers_calls(rs: Seq<BlockView>, calls: Seq<ToolCallView>, ids: Seq<(u64, Seq<char>)>) -> bool {
    &&& rs.len() == calls.len()
    &&& forall|i: int|
        0 <= i < rs.len() ==> (#[trigger] rs[i]) is ToolResult && first_with(ids, calls[i].id) == Some(
            rs[i]->ToolResult_0,
        )
}

impl Turn {
    /// The turn that opened on `h0` waits for tool results: past `h0` its
    /// history holds an odd number of messages, the last an assistant one.
    pub open spec fn awaiting(&self, h0: Seq<MessageView>) -> bool {
        (messages_view(self.history@).len() - h0.len()) % 2 == 1
    }

    /// The turn that opened on `h0` is in order: its history still starts
    /// with `h0`, the messages past it are an exchange, and the pending
    /// calls are recorded under the tool-use ids of the round in progress
    /// (or, while it waits for results, of its last assistant message).
    pub open spec fn turn_ok(&self, h0: Seq<MessageView>) -> bool {
        let h = messages_view(self.history@);
        &&& h0.len() <= h.len()
        &&& h.subrange(0, h0.len() as int) == h0
        &&& exchange(h.subrange(h0.len() as int, h.len() as int))
        &&& if self.awaiting(h0) {
            &&& self.blocks@.len() == 0
            &&& h.last() is Assistant
            &&& lined_up(h.last()->Assistant_0, calls_view(self.pending@), ids_map_view(self.id_map@))
        } else {
            lined_up(blocks_view(self.blocks@), calls_view(self.pending@), ids_map_view(self.id_map@))
        }
    }
}

proof fn lemma_tool_use_ids_push(bs: Seq<BlockView>, b: BlockView)
    ensures
        tool_use_ids(bs.push(b)) == tool_use_ids(bs) + match b {
            BlockView::ToolUse(id, _, _) => seq![id],
            _ => Seq::<Seq<char>>::empty(),
        },
{
    assert(bs.push(b).drop_last() =~= bs);
}

/// A history grown by one message stays in order past `h0` when the new
/// message keeps the alternation.
proof fn lemma_exchange_push(h: Seq<MessageView>, h0: Seq<MessageView>, m: MessageView)
    requires
        h0.len() <= h.len(),
        h.subrange(0, h0.len() as int) == h0,
        exchange(h.subrange(h0.len() as int, h.len() as int)),
        (h.len() - h0.len()) % 2 == 0 ==> m is Assistant,
        (h.len() - h0.len()) % 2 == 1 ==> answers(h.last(), m),
    ensures
        h.push(m).subrange(0, h0.len() as int) == h0,
        exchange(h.push(m).subrange(h0.len() as int, h.len() as int + 1)),
{
    let t = h.subrange(h0.len() as int, h.len() as int);
    let t2 = h.push(m).subrange(h0.len() as int, h.len() as int + 1);
    assert(h.push(m).subrange(0, h0.len() as int) =~= h.subrange(0, h0.len() as int));
    assert(t2 =~= t.push(m));
    assert forall|j: int| 0 <= j < t2.len() implies if j % 2 == 0 {
        (#[trigger] t2[j]) is Assistant
    } else {
        answers(t2[j - 1], t2[j])
    } by {
        if j < t.len() {
            assert(t2[j] == t[j]);
            if j % 2 == 1 {
                assert(t2[j - 1] == t[j - 1]);
            }
        } else {
            if j % 2 == 1 {
                assert(t2[j - 1] == h.last());
            }
        }
    }
}

proof fn lemma_end_round_order(before: Turn, after: Turn)
    requires
        after.pending@ == before.pending@,
        after.id_map@ == before.id_map@,
        after.blocks@.len() == 0,
        messages_view(after.history@) == messages_view(before.history@).push(
            MessageView::Assistant(blocks_view(before.blocks@)),
        ),
    ensures
        forall|h0: Seq<MessageView>|
            before.turn_ok(h0) && !before.awaiting(h0) ==> #[trigger] after.turn_ok(h0) && after.awaiting(h0),
{
    assert forall|h0: Seq<MessageView>| before.turn_ok(h0) && !before.awaiting(h0) implies #[trigger] after.turn_ok(
        h0,
    ) && after.awaiting(h0) by {
        let h = messages_view(before.history@);
        lemma_exchange_push(h, h0, MessageView::Assistant(blocks_view(before.blocks@)));
    }
}

proof fn lemma_close_round_order(before: Turn, after: Turn, results: Seq<BlockView>)
    requires
        after.pending@.len() == 0,
        after.blocks@ == before.blocks@,
        messages_view(after.history@) == messages_view(before.history@).push(MessageView::User(results)),
    ensures
        forall|h0: Seq<MessageView>|
            before.turn_ok(h0) && before.awaiting(h0) && answers_calls(
                results,
                calls_view(before.pending@),
                ids_map_view(before.id_map@),
            ) ==> #[trigger] after.turn_ok(h0) && !after.awaiting(h0),
{
    assert forall|h0: Seq<MessageView>|
        before.turn_ok(h0) && before.awaiting(h0) && answers_calls(
            results,
            calls_view(before.pending@),
            ids_map_view(before.id_map@),
        ) implies #[trigger] after.turn_ok(h0) && !after.awaiting(h0) by {
        let h = messages_view(before.history@);
        let ab = h.last()->Assistant_0;
        let calls = calls_view(before.pending@);
        let ids = ids_map_view(before.id_map@);
        assert forall|i: int| 0 <= i < results.len() implies (#[trigger] results[i]) is ToolResult
            && results[i]->ToolResult_0 == tool_use_ids(ab)[i] by {
            assert(first_with(ids, calls[i].id) == Some(tool_use_ids(ab)[i]));
        }
        assert(answers(h.last(), MessageView::User(results)));
        lemma_exchange_push(h, h0, MessageView::User(results));
        assert(calls_view(after.pending@).len() == 0);
        assert(tool_use_ids(blocks_view(after.blocks@)).len() == 0);
    }
}

proof fn lemma_block_order(before: Turn, after: Turn, b: BlockView)
    requires
        after.history@ == before.history@,
        after.pending@ == before.pending@,
        after.id_map@ == before.id_map@,
        blocks_view(after.blocks@) == blocks_view(before.blocks@).push(b),
        !(b is ToolUse),
    ensures
        forall|h0: Seq<MessageView>|
            before.turn_ok(h0) && !before.awaiting(h0) ==> #[trigger] after.turn_ok(h0) && !after.awaiting(h0),
{
    lemma_tool_use_ids_push(blocks_view(before.blocks@), b);
    assert(tool_use_ids(blocks_view(after.blocks@)) =~= tool_use_ids(blocks_view(before.blocks@)));
}

proof fn lemma_tool_use_order(before: Turn, after: Turn, id: Seq<char>, name: Seq<char>, input: JsonView)
    requires
        before.wf(),
        after.history@ == before.history@,
        blocks_view(after.blocks@) == blocks_view(before.blocks@).push(BlockView::ToolUse(id, name, input)),
        calls_view(after.pending@) == calls_view(before.pending@).push(
            ToolCallView { id: before.next_id, tool: name, args: input, needs_approval: false },
        ),
        ids_map_view(after.id_map@) == ids_map_view(before.id_map@).push((before.next_id, id)),
    ensures
        forall|h0: Seq<MessageView>|
            before.turn_ok(h0) && !before.awaiting(h0) ==> #[trigger] after.turn_ok(h0) && !after.awaiting(h0),
{
    let bs = blocks_view(before.blocks@);
    let calls = calls_view(before.pending@);
    let ids = ids_map_view(before.id_map@);
    let next = before.next_id;
    lemma_tool_use_ids_push(bs, BlockView::ToolUse(id, name, input));
    assert forall|j: int| 0 <= j < ids.len() implies ids[j].0 != next by {
        assert(ids[j].0 == before.id_map@[j].0);
    }
    lemma_first_with_none(ids, next);
    assert forall|h0: Seq<MessageView>| before.turn_ok(h0) && !before.awaiting(h0) implies #[trigger] after.turn_ok(
        h0,
    ) && !after.awaiting(h0) by {
        let bs2 = blocks_view(after.blocks@);
        let calls2 = calls_view(after.pending@);
        let ids2 = ids_map_view(after.id_map@);
        assert forall|i: int| 0 <= i < calls2.len() implies first_with(ids2, (#[trigger] calls2[i]).id) == Some(
            tool_use_ids(bs2)[i],
        ) by {
            lemma_first_with_push(ids, next, id, calls2[i].id);
            if i < calls.len() {
                assert(calls2[i] == calls[i]);
                assert(first_with(ids, calls[i].id) == Some(tool_use_ids(bs)[i]));
                assert(tool_use_ids(bs2)[i] == tool_use_ids(bs)[i]);
            } else {
                assert(calls2[i].id == next);
                assert(tool_use_ids(bs2)[i] == id);
            }
        }
    }
}

/// The results a collector assembles for calls recorded under the tool-use
/// ids of `bs` answer those calls.
pub proof fn law_assembled_results_answer(
    bs: Seq<BlockView>,
    calls: Seq<ToolCallView>,
    outputs: Seq<(u64, (bool, JsonView))>,
    ids: Seq<(u64, Seq<char>)>,
)
    requires
        lined_up(bs, calls, ids),
    ensures
        answers_calls(result_blocks(calls, outputs, ids), calls, ids),
{
    let rs = result_blocks(calls, outputs, ids);
    assert forall|i: int| 0 <= i < rs.len() implies (#[trigger] rs[i]) is ToolResult && first_with(
        ids,
        calls[i].id,
    ) == Some(rs[i]->ToolResult_0) by {
        assert(first_with(ids, calls[i].id) == Some(tool_use_ids(bs)[i]));
    }
}

/// A whole turn stays in order: a turn opened on `h0` keeps `h0` as the
/// start of its history; past it, assistant and user messages alternate,
/// starting with an assistant message, and each user message holds one
/// tool result per tool use of the assistant message before it, in order,
/// under that tool use's id; and when a round ends with no call pending,
/// its assistant message (the last) has no tool use. `Turn::new` puts a
/// turn in order; reading responses and ending rounds keep it so, and so
/// does closing a round with the results assembled for its calls.
pub proof fn law_turn_in_order(t: Turn, h0: Seq<MessageView>)
    requires
        t.turn_ok(h0),
    ensures
        messages_view(t.history@).subrange(0, h0.len() as int) == h0,
        exchange(messages_view(t.history@).subrange(h0.len() as int, messages_view(t.history@).len() as int)),
        t.awaiting(h0) && t.pending@.len() == 0 ==> tool_use_ids(
            messages_view(t.history@).last()->Assistant_0,
        ).len() == 0,
{
}

/// The tool calls, their recorded ids and the tool-use blocks of a run of
/// chunks line up: the `i`-th call has action id `next + i`, is recorded
/// under the provider id of the `i`-th tool-use block.
proof fn lemma_chunk_calls_line_up(cs: Seq<Chunk>, next: nat)
    requires
        next + chunk_uses(cs) <= u64::MAX,
    ensures
        chunk_calls(cs, next).len() == chunk_uses(cs),
        chunk_ids(cs, next).len() == chunk_uses(cs),
        tool_use_ids(chunk_blocks(cs)).len() == chunk_uses(cs),
        forall|i: int|
            0 <= i < chunk_uses(cs) ==> (#[trigger] chunk_calls(cs, next)[i]).id == next + i
                && chunk_ids(cs, next)[i] == ((next + i) as u64, tool_use_ids(chunk_blocks(cs))[i]),
    decreases cs.len(),
{
    if cs.len() > 0 {
        let pre = cs.drop_last();
        lemma_chunk_calls_line_up(pre, next);
        let bs = chunk_blocks(cs);
        let pb = chunk_blocks(pre);
        match cs.last() {
            Chunk::ToolUse { id, name, input } => {
                assert(bs == pb + seq![BlockView::ToolUse(id@, name@, input@)]);
                assert(bs.drop_last() =~= pb);
                assert(tool_use_ids(bs) == tool_use_ids(pb) + seq![id@]);
            },
            Chunk::TextBlock(t) => {
                assert(bs.drop_last() =~= pb);
                assert(tool_use_ids(bs) =~= tool_use_ids(pb));
            },
            Chunk::ThinkingBlock { thinking, signature } => {
                assert(bs.drop_last() =~= pb);
                assert(tool_use_ids(bs) =~= tool_use_ids(pb));
            },
            _ => {
                assert(bs =~= pb);
                assert(chunk_calls(cs, next) =~= chunk_calls(pre, next));
                assert(chunk_ids(cs, next) =~= chunk_ids(pre, next));
            },
        }
    }
}

/// Every tool use of a response is answered, in order: the result blocks
/// for the calls a response asks for are one per tool-use block of the
/// response, and the `i`-th carries the provider id of the `i`-th tool use,
/// whatever outputs arrived. (`prior` are the ids recorded in earlier
/// rounds, all below `next`.)
pub proof fn law_each_tool_use_answered(
    cs: Seq<Chunk>,
    next: nat,
    prior: Seq<(u64, Seq<char>)>,
    outputs: Seq<(u64, (bool, JsonView))>,
)
    requires
        next + chunk_uses(cs) <= u64::MAX,
        forall|j: int| 0 <= j < prior.len() ==> (#[trigger] prior[j]).0 < next,
    ensures
        result_blocks(chunk_calls(cs, next), outputs, prior + chunk_ids(cs, next)).len()
            == tool_use_ids(chunk_blocks(cs)).len(),
        forall|i: int|
            0 <= i < tool_use_ids(chunk_blocks(cs)).len() ==> (#[trigger] result_blocks(
                chunk_calls(cs, next),
                outputs,
                prior + chunk_ids(cs, next),
            )[i]) == BlockView::ToolResult(
                tool_use_ids(chunk_blocks(cs))[i],
                result_blocks(chunk_calls(cs, next), outputs, prior + chunk_ids(cs, next))[i]->ToolResult_1,
                result_blocks(chunk_calls(cs, next), outputs, prior + chunk_ids(cs, next))[i]->ToolResult_2,
            ),
{
    lemma_chunk_calls_line_up(cs, next);
    let ids = prior + chunk_ids(cs, next);
    let calls = chunk_calls(cs, next);
    assert forall|i: int| 0 <= i < tool_use_ids(chunk_blocks(cs)).len() implies (#[trigger] result_blocks(
        calls,
        outputs,
        ids,
    )[i]) == BlockView::ToolResult(
        tool_use_ids(chunk_blocks(cs))[i],
        result_blocks(calls, outputs, ids)[i]->ToolResult_1,
        result_blocks(calls, outputs, ids)[i]->ToolResult_2,
    ) by {
        let k = prior.len() + i;
        assert(ids[k] == chunk_ids(cs, next)[i]);
        assert(calls[i].id == next + i);
        assert forall|j: int| 0 <= j < k implies ids[j].0 != calls[i].id by {
            if j < prior.len() {
                assert(ids[j] == prior[j]);
            } else {
                assert(ids[j] == chunk_ids(cs, next)[j - prior.len()]);
                assert(chunk_calls(cs, next)[j - prior.len()].id == next + j - prior.len());
            }
        }
        lemma_first_with_at(ids, calls[i].id, k);
    }
}

/// The live-display deltas of a run of chunks: (is thinking, text).
pub open spec fn chunk_deltas(cs: Seq<Chunk>) -> Seq<(bool, Seq<char>)>
    decreases cs.len(),
{
    if cs.len() == 0 {
        Seq::empty()
    } else {
        chunk_deltas(cs.drop_last()) + match cs.last() {
            Chunk::TextDelta(t) => seq![(false, t@)],
            Chunk::ThinkingDelta(t) => seq![(true, t@)],
            _ => Seq::empty(),
        }
    }
}

/// The delta an event carries for `session`: (is thinking, text).
pub open spec fn delta_event(ev: Event, session: SessionId) -> Option<(bool, Seq<char>)> {
    match ev {
        Event::AgentText { session: s, delta } => if s == session {
            Some((false, delta@))
        } else {
            None
        },
        Event::AgentThinking { session: s, delta } => if s == session {
            Some((true, delta@))
        } else {
            None
        },
        _ => None,
    }
}

proof fn lemma_first_done_at(cs: Seq<Chunk>, i: int)
    requires
        0 <= i <= cs.len(),
        forall|j: int| 0 <= j < i ==> !(#[trigger] cs[j] is Done),
        i == cs.len() || cs[i] is Done,
    ensures
        first_done(cs) == i,
    decreases i,
{
    if i > 0 {
        assert(!(cs[0] is Done));
        let rest = cs.drop_first();
        assert forall|j: int| 0 <= j < i - 1 implies !(#[trigger] rest[j] is Done) by {
            assert(rest[j] == cs[j + 1]);
        }
        lemma_first_done_at(rest, i - 1);
    }
}

proof fn lemma_first_done_at_least(cs: Seq<Chunk>, k: int)
    requires
        0 <= k <= cs.len(),
        forall|j: int| 0 <= j < k ==> !(#[trigger] cs[j] is Done),
    ensures
        first_done(cs) >= k,
    decreases k,
{
    if k > 0 {
        assert(!(cs[0] is Done));
        let rest = cs.drop_first();
        assert forall|j: int| 0 <= j < k - 1 implies !(#[trigger] rest[j] is Done) by {
            assert(rest[j] == cs[j + 1]);
        }
        lemma_first_done_at_least(rest, k - 1);
    }
}

proof fn lemma_first_done_bound(cs: Seq<Chunk>)
    ensures
        first_done(cs) <= cs.len(),
    decreases cs.len(),
{
    if cs.len() > 0 {
        lemma_first_done_bound(cs.drop_first());
    }
}

proof fn lemma_uses_monotone(cs: Seq<Chunk>, k: int, m: int)
    requires
        0 <= k <= m <= cs.len(),
    ensures
        chunk_uses(cs.take(k)) <= chunk_uses(cs.take(m)),
    decreases m - k,
{
    if k < m {
        lemma_uses_monotone(cs, k, m - 1);
        assert(cs.take(m).drop_last() =~= cs.take(m - 1));
    }
}

impl Turn {
    /// Reads one streamed response, up to its first `Done`: finished
    /// blocks join the round in order, each tool use becomes a pending call
    /// with the next action id, and the text and thinking deltas come back
    /// as the events to emit, in order.
    pub fn on_response(&mut self, chunks: Vec<Chunk>) -> (emitted: Vec<Event>)
        requires
            old(self).wf(),
            old(self).next_id + chunk_uses(live_chunks(chunks@)) < u64::MAX,
        ensures
            final(self).wf(),
            final(self).session == old(self).session,
            final(self).history@ == old(self).history@,
            blocks_view(final(self).blocks@) == blocks_view(old(self).blocks@) + chunk_blocks(
                live_chunks(chunks@),
            ),
            calls_view(final(self).pending@) == calls_view(old(self).pending@) + chunk_calls(
                live_chunks(chunks@),
                old(self).next_id as nat,
            ),
            final(self).next_id == old(self).next_id + chunk_uses(live_chunks(chunks@)),
            ids_map_view(final(self).id_map@) == ids_map_view(old(self).id_map@) + chunk_ids(
                live_chunks(chunks@),
                old(self).next_id as nat,
            ),
            forall|h0: Seq<MessageView>|
                old(self).turn_ok(h0) && !old(self).awaiting(h0) ==> #[trigger] final(self).turn_ok(h0)
                    && !final(self).awaiting(h0),
            emitted@.map_values(|e: Event| delta_event(e, old(self).session)) == chunk_deltas(
                live_chunks(chunks@),
            ).map_values(|d: (bool, Seq<char>)| Some(d)),
    {
        let ghost start = *self;
        let ghost cs = chunks@;
        let ghost sess = self.session;
        let mut emitted: Vec<Event> = Vec::new();
        let mut rest = chunks;
        let n = rest.len();
        let mut i: usize = 0;
        proof {
            assert(cs.take(0) =~= Seq::<Chunk>::empty());
            assert(rest@ =~= cs.subrange(0, n as int));
            if n == 0 {
                lemma_first_done_at(cs, 0);
            }
        }
        while i < n
            invariant_except_break
                i <= n,
                n == cs.len(),
                rest@ == cs.subrange(i as int, n as int),
                forall|j: int| 0 <= j < i ==> !(#[trigger] cs[j] is Done),
                i == n ==> first_done(cs) == i,
                self.wf(),
                self.session == sess,
                self.history@ == start.history@,
                forall|h0: Seq<MessageView>|
                    start.turn_ok(h0) && !start.awaiting(h0) ==> #[trigger] self.turn_ok(h0) && !self.awaiting(h0),
                blocks_view(self.blocks@) == blocks_view(start.blocks@) + chunk_blocks(cs.take(i as int)),
                calls_view(self.pending@) == calls_view(start.pending@) + chunk_calls(
                    cs.take(i as int),
                    start.next_id as nat,
                ),
                self.next_id == start.next_id + chunk_uses(cs.take(i as int)),
                ids_map_view(self.id_map@) == ids_map_view(start.id_map@) + chunk_ids(
                    cs.take(i as int),
                    start.next_id as nat,
                ),
                start.next_id + chunk_uses(live_chunks(cs)) < u64::MAX,
                emitted@.map_values(|e: Event| delta_event(e, sess)) == chunk_deltas(cs.take(i as int)).map_values(
                    |d: (bool, Seq<char>)| Some(d),
                ),
            invariant
                i <= first_done(cs),
            ensures
                first_done(cs) == i,
                self.wf(),
                self.session == sess,
                self.history@ == start.history@,
                forall|h0: Seq<MessageView>|
                    start.turn_ok(h0) && !start.awaiting(h0) ==> #[trigger] self.turn_ok(h0) && !self.awaiting(h0),
                blocks_view(self.blocks@) == blocks_view(start.blocks@) + chunk_blocks(cs.take(i as int)),
                calls_view(self.pending@) == calls_view(start.pending@) + chunk_calls(
                    cs.take(i as int),
                    start.next_id as nat,
                ),
                self.next_id == start.next_id + chunk_uses(cs.take(i as int)),
                ids_map_view(self.id_map@) == ids_map_view(start.id_map@) + chunk_ids(
                    cs.take(i as int),
                    start.next_id as nat,
                ),
                emitted@.map_values(|e: Event| delta_event(e, sess)) == chunk_deltas(cs.take(i as int)).map_values(
                    |d: (bool, Seq<char>)| Some(d),
                ),
            decreases n - i,
        {
            let c = rest.remove(0);
            let ghost pre = cs.take(i as int);
            let ghost post = cs.take(i + 1);
            proof {
                assert(c == cs[i as int]);
                assert(rest@ =~= cs.subrange(i + 1, n as int));
                assert(post.drop_last() =~= pre);
                assert(post.last() == c);
            }
            let is_done = match c {
                Chunk::Done => true,
                _ => false,
            };
            if is_done {
                proof {
                    lemma_first_done_at(cs, i as int);
                }
                break;
            }
            proof {
                lemma_first_done_at_least(cs, i + 1);
                lemma_first_done_bound(cs);
                lemma_uses_monotone(cs, i + 1, first_done(cs) as int);
                assert(live_chunks(cs) == cs.take(first_done(cs) as int));
            }
            let ghost before_emitted = emitted@;
            let ghost cg = c;
            let step = self.on_chunk(c);
            match step {
                ChunkStep::Emit(ev) => {
                    emitted.push(ev);
                },
                _ => {},
            }
            proof {
                let f = |e: Event| delta_event(e, sess);
                let g = |d: (bool, Seq<char>)| Some(d);
                match cg {
                    Chunk::TextDelta(t) => {
                        assert(chunk_deltas(post) == chunk_deltas(pre) + seq![(false, t@)]);
                        assert(emitted@.len() == before_emitted.len() + 1);
                        assert(f(emitted@.last()) == Some((false, t@)));
                        assert(emitted@.drop_last() =~= before_emitted);
                    },
                    Chunk::ThinkingDelta(t) => {
                        assert(chunk_deltas(post) == chunk_deltas(pre) + seq![(true, t@)]);
                        assert(emitted@.len() == before_emitted.len() + 1);
                        assert(f(emitted@.last()) == Some((true, t@)));
                        assert(emitted@.drop_last() =~= before_emitted);
                    },
                    _ => {
                        assert(chunk_deltas(post) =~= chunk_deltas(pre));
                        assert(emitted@ == before_emitted);
                    },
                }
                let lhs = emitted@.map_values(|e: Event| delta_event(e, sess));
                let rhs = chunk_deltas(post).map_values(|d: (bool, Seq<char>)| Some(d));
                let lhs0 = before_emitted.map_values(|e: Event| delta_event(e, sess));
                let rhs0 = chunk_deltas(pre).map_values(|d: (bool, Seq<char>)| Some(d));
                assert(lhs0 == rhs0);
                assert(lhs0.len() == before_emitted.len());
                assert(rhs0.len() == chunk_deltas(pre).len());
                assert(before_emitted.len() == chunk_deltas(pre).len());
                assert(emitted@.len() == chunk_deltas(post).len());
                assert(lhs.len() == rhs.len());
                assert forall|k: int| 0 <= k < lhs.len() implies lhs[k] == rhs[k] by {
                    if k < lhs0.len() {
                        assert(emitted@[k] == before_emitted[k]);
                        assert(chunk_deltas(post)[k] == chunk_deltas(pre)[k]);
                        assert(lhs0[k] == rhs0[k]);
                    }
                }
                assert(lhs =~= rhs);
                assert(blocks_view(self.blocks@) =~= blocks_view(start.blocks@) + chunk_blocks(post));
                assert(calls_view(self.pending@) =~= calls_view(start.pending@) + chunk_calls(
                    post,
                    start.next_id as nat,
                ));
                assert(ids_map_view(self.id_map@) =~= ids_map_view(start.id_map@) + chunk_ids(
                    post,
                    start.next_id as nat,
                ));
            }
            i = i + 1;
            proof {
                if i == n {
                    lemma_first_done_at(cs, i as int);
                }
            }
        }
        proof {
            assert(live_chunks(cs) == cs.take(i as int));
        }
        emitted
    }
}

impl Turn {
    /// Ends the round: its blocks become one assistant message. Without
    /// tool calls the turn is complete; otherwise the caller emits one
    /// `ToolRequested` per pending call, in order.
    pub fn end_round(&mut self) -> (r: RoundEnd)
        requires
            old(self).wf(),
        ensures
            final(self).wf(),
            final(self).session == old(self).session,
            final(self).next_id == old(self).next_id,
            final(self).id_map@ == old(self).id_map@,
            final(self).pending@ == old(self).pending@,
            final(self).blocks@.len() == 0,
            messages_view(final(self).history@) == messages_view(old(self).history@).push(
                MessageView::Assistant(blocks_view(old(self).blocks@)),
            ),
            old(self).pending@.len() == 0 ==> completes(r, old(self).session),
            old(self).pending@.len() > 0 ==> awaits(r, old(self).session, calls_view(old(self).pending@)),
            forall|h0: Seq<MessageView>|
                old(self).turn_ok(h0) && !old(self).awaiting(h0) ==> #[trigger] final(self).turn_ok(h0)
                    && final(self).awaiting(h0),
    {
        let mut content: Vec<ContentBlock> = Vec::new();
        std::mem::swap(&mut content, &mut self.blocks);
        let ghost before = self.history@;
        self.history.push(Message::Assistant { content });
        proof {
            assert(messages_view(self.history@) =~= messages_view(before).push(
                self.history@.last()@,
            ));
            lemma_end_round_order(*old(self), *self);
        }
        if self.pending.len() == 0 {
            return RoundEnd::Complete(Event::TurnComplete { session: self.session });
        }
        let mut evs: Vec<Event> = Vec::new();
        let mut i: usize = 0;
        while i < self.pending.len()
            invariant
                i <= self.pending@.len(),
                evs@.len() == i,
                forall|j: int|
                    0 <= j < i ==> requested(#[trigger] evs@[j], self.session, self.pending@[j]@),
            decreases self.pending@.len() - i,
        {
            evs.push(Event::ToolRequested { session: self.session, call: self.pending[i].copy() });
            i = i + 1;
        }
        let r = RoundEnd::AwaitTools(evs);
        proof {
            assert(calls_view(self.pending@).len() == self.pending@.len());
            assert forall|j: int| 0 <= j < self.pending@.len() implies requested(
                #[trigger] evs@[j],
                self.session,
                calls_view(self.pending@)[j],
            ) by {
                assert(calls_view(self.pending@)[j] == self.pending@[j]@);
            }
        }
        r
    }

    /// Closes a round with tool calls: their results become one user
    /// message, and the next round starts empty.
    pub fn close_round(&mut self, results: Vec<ContentBlock>)
        requires
            old(self).wf(),
        ensures
            final(self).wf(),
            final(self).session == old(self).session,
            final(self).next_id == old(self).next_id,
            final(self).id_map@ == old(self).id_map@,
            final(self).pending@.len() == 0,
            final(self).blocks@ == old(self).blocks@,
            messages_view(final(self).history@) == messages_view(old(self).history@).push(
                MessageView::User(blocks_view(results@)),
            ),
            forall|h0: Seq<MessageView>|
                old(self).turn_ok(h0) && old(self).awaiting(h0) && answers_calls(
                    blocks_view(results@),
                    calls_view(old(self).pending@),
                    ids_map_view(old(self).id_map@),
                ) ==> #[trigger] final(self).turn_ok(h0) && !final(self).awaiting(h0),
    {
        let ghost before = self.history@;
        let ghost rv = blocks_view(results@);
        self.history.push(Message::User { content: results });
        proof {
            assert(messages_view(self.history@) =~= messages_view(before).push(
                self.history@.last()@,
            ));
        }
        self.pending = Vec::new();
        proof {
            lemma_close_round_order(*old(self), *self, rv);
        }
    }
}

impl Turn {
    /// A collector for the calls of the round in progress, none answered yet.
    pub fn round_collector(&self) -> (r: ResultCollector)
        requires
            self.wf(),
        ensures
            r.wf(),
            r.session == self.session,
            r.calls@ == call_ids(calls_view(self.pending@)),
            r.remaining@ == call_ids(calls_view(self.pending@)),
            r.results@.len() == 0,
    {
        proof {
            let ids = call_ids(calls_view(self.pending@));
            assert forall|i: int, j: int| 0 <= i < ids.len() && 0 <= j < ids.len() && i != j implies ids[i]
                != ids[j] by {
                assert(ids[i] == self.pending@[i].id.0);
                assert(ids[j] == self.pending@[j].id.0);
                if i < j {
                    assert(self.pending@[i].id.0 != self.pending@[j].id.0);
                } else {
                    assert(self.pending@[j].id.0 != self.pending@[i].id.0);
                }
            }
        }
        ResultCollector::new(self.session, &self.pending)
    }
}

/// Waits for one result per pending call of a round.
#[derive(Debug)]
pub struct ResultCollector {
    pub session: SessionId,
    /// The ids of the round's calls, in call order.
    pub calls: Vec<u64>,
    /// The calls still without a result.
    pub remaining: Vec<u64>,
    /// The results received, in arrival order.
    pub results: Vec<(u64, ToolOutput)>,
}

/// The first result for call `id` of `session` among `evs`, as a model.
pub open spec fn first_result(evs: Seq<Event>, session: SessionId, id: u64) -> Option<(bool, JsonView)>
    decreases evs.len(),
{
    if evs.len() == 0 {
        None
    } else {
        match first_result(evs.drop_last(), session, id) {
            Some(o) => Some(o),
            None => match evs.last() {
                Event::ToolResult { session: s, call, output } => if s == session && call.0 == id {
                    Some((output.ok, output.content@))
                } else {
                    None
                },
                _ => None,
            },
        }
    }
}

impl ResultCollector {
    /// The collector is in step with its calls: a call is remaining exactly
    /// when no result came for it, and results come only for calls.
    pub open spec fn wf(&self) -> bool {
        &&& self.remaining@.no_duplicates()
        &&& forall|id: u64|
            #![trigger self.remaining@.contains(id)]
            #![trigger first_with(outputs_view(self.results@), id)]
            self.remaining@.contains(id) <==> (self.calls@.contains(id) && first_with(
                outputs_view(self.results@),
                id,
            ) is None)
        &&& forall|id: u64|
            #![trigger first_with(outputs_view(self.results@), id)]
            first_with(outputs_view(self.results@), id) is Some ==> self.calls@.contains(id)
    }

    /// A collector for the calls of a round, none answered yet.
    pub fn new(session: SessionId, pending: &Vec<ToolCall>) -> (r: ResultCollector)
        requires
            call_ids(calls_view(pending@)).no_duplicates(),
        ensures
            r.wf(),
            r.session == session,
            r.calls@ == call_ids(calls_view(pending@)),
            r.remaining@ == call_ids(calls_view(pending@)),
            r.results@.len() == 0,
    {
        let mut ids: Vec<u64> = Vec::new();
        let mut i: usize = 0;
        while i < pending.len()
            invariant
                i <= pending@.len(),
                ids@ == call_ids(calls_view(pending@)).take(i as int),
            decreases pending@.len() - i,
        {
            ids.push(pending[i].id.0);
            i = i + 1;
            proof {
                assert(ids@ =~= call_ids(calls_view(pending@)).take(i as int));
            }
        }
        proof {
            assert(ids@ =~= call_ids(calls_view(pending@)));
        }
        let remaining = ids.clone();
        let r = ResultCollector { session, calls: ids, remaining, results: Vec::new() };
        proof {
            assert forall|id: u64| #[trigger] first_with(outputs_view(r.results@), id) is None by {
                lemma_first_with_none(outputs_view(r.results@), id);
            }
        }
        r
    }

    /// Takes in one bus event: a result for this session and a call still
    /// waiting is recorded; any other event (another session's, a repeated
    /// result, anything but a result) changes nothing.
    pub fn on_event(&mut self, event: &Event)
        requires
            old(self).wf(),
        ensures
            final(self).wf(),
            final(self).session == old(self).session,
            final(self).calls@ == old(self).calls@,
            match event {
                Event::ToolResult { session, call, output } => if *session == old(self).session
                    && old(self).remaining@.contains(call.0) {
                    &&& forall|x: u64|
                        #![trigger final(self).remaining@.contains(x)]
                        final(self).remaining@.contains(x) <==> (old(self).remaining@.contains(x) && x
                            != call.0)
                    &&& outputs_view(final(self).results@) == outputs_view(old(self).results@).push(
                        (call.0, (output.ok, output.content@)),
                    )
                } else {
                    *final(self) == *old(self)
                },
                _ => *final(self) == *old(self),
            },
    {
        match event {
            Event::ToolResult { session, call, output } => {
                if session.0 == self.session.0 {
                    if let Some(k) = index_of(&self.remaining, call.0) {
                        let ghost old_self = *self;
                        let ghost outs = outputs_view(self.results@);
                        self.remaining.remove(k);
                        self.results.push((call.0, output.copy()));
                        proof {
                            let id0 = call.0;
                            let new_out = (output.ok, output.content@);
                            assert(outputs_view(self.results@) =~= outs.push((id0, new_out)));
                            assert(old_self.remaining@[k as int] == id0);
                            assert(old_self.remaining@.contains(id0));
                            lemma_remove_distinct(old_self.remaining@, k as int);
                            assert forall|id: u64|
                                #![trigger self.remaining@.contains(id)]
                                #![trigger first_with(outputs_view(self.results@), id)]
                                self.remaining@.contains(id) <==> (self.calls@.contains(id)
                                    && first_with(outputs_view(self.results@), id) is None) by {
                                lemma_first_with_push(outs, id0, new_out, id);
                            }
                            assert forall|id: u64|
                                #![trigger first_with(outputs_view(self.results@), id)]
                                first_with(outputs_view(self.results@), id) is Some
                                    implies self.calls@.contains(id) by {
                                lemma_first_with_push(outs, id0, new_out, id);
                            }
                        }
                    }
                }
            },
            _ => {},
        }
    }

    /// Takes in a run of bus events, in order. Each call that had no result
    /// gets the first result for it in the run (if any); a call that had a
    /// result keeps it; results for other sessions or other calls, and
    /// repeated results, are ignored.
    pub fn absorb(&mut self, events: &Vec<Event>)
        requires
            old(self).wf(),
        ensures
            final(self).wf(),
            final(self).session == old(self).session,
            final(self).calls@ == old(self).calls@,
            forall|id: u64|
                old(self).calls@.contains(id) ==> #[trigger] first_with(outputs_view(final(self).results@), id)
                    == match first_with(outputs_view(old(self).results@), id) {
                    Some(o) => Some(o),
                    None => first_result(events@, old(self).session, id),
                },
    {
        let ghost start = *self;
        let mut i: usize = 0;
        while i < events.len()
            invariant
                i <= events@.len(),
                self.wf(),
                self.session == start.session,
                self.calls@ == start.calls@,
                forall|id: u64|
                    start.calls@.contains(id) ==> #[trigger] first_with(outputs_view(self.results@), id)
                        == match first_with(outputs_view(start.results@), id) {
                        Some(o) => Some(o),
                        None => first_result(events@.take(i as int), start.session, id),
                    },
            decreases events@.len() - i,
        {
            let ghost before = *self;
            let ev = &events[i];
            self.on_event(ev);
            proof {
                let pre = events@.take(i as int);
                let post = events@.take(i + 1);
                assert(post.drop_last() =~= pre);
                assert(post.last() == *ev);
                assert forall|id: u64| start.calls@.contains(id) implies #[trigger] first_with(
                    outputs_view(self.results@),
                    id,
                ) == match first_with(outputs_view(start.results@), id) {
                    Some(o) => Some(o),
                    None => first_result(post, start.session, id),
                } by {
                    assert(first_with(outputs_view(before.results@), id) == match first_with(
                        outputs_view(start.results@),
                        id,
                    ) {
                        Some(o) => Some(o),
                        None => first_result(pre, start.session, id),
                    });
                    match ev {
                        Event::ToolResult { session, call, output } => {
                            if *session == before.session && before.remaining@.contains(call.0) {
                                lemma_first_with_push(
                                    outputs_view(before.results@),
                                    call.0,
                                    (output.ok, output.content@),
                                    id,
                                );
                            } else if *session == before.session && call.0 == id {
                                assert(before.calls@.contains(id));
                                assert(!before.remaining@.contains(id));
                            }
                        },
                        _ => {},
                    }
                }
            }
            i = i + 1;
        }
        proof {
            assert(events@.take(events@.len() as int) =~= events@);
        }
    }

    /// Every call has its result.
    pub fn is_done(&self) -> (r: bool)
        requires
            self.wf(),
        ensures
            r == (self.remaining@.len() == 0),
            r <==> forall|i: int|
                0 <= i < self.calls@.len() ==> #[trigger] first_with(
                    outputs_view(self.results@),
                    self.calls@[i],
                ) is Some,
    {
        proof {
            law_done_when_every_call_answered(*self);
        }
        self.remaining.len() == 0
    }

    /// The result blocks for the round's calls: one per call, in call
    /// order, each under the provider's id of its call, an error exactly
    /// when the output is not ok, and "missing result" for a call without
    /// an output.
    pub fn assemble(&self, pending: &Vec<ToolCall>, id_map: &Vec<(u64, String)>) -> (r: Vec<
        ContentBlock,
    >)
        ensures
            blocks_view(r@) == result_blocks(
                calls_view(pending@),
                outputs_view(self.results@),
                ids_map_view(id_map@),
            ),
    {
        let ghost outs = outputs_view(self.results@);
        let ghost ids = ids_map_view(id_map@);
        let ghost want = result_blocks(calls_view(pending@), outs, ids);
        let mut out: Vec<ContentBlock> = Vec::new();
        let mut i: usize = 0;
        while i < pending.len()
            invariant
                i <= pending@.len(),
                outs == outputs_view(self.results@),
                ids == ids_map_view(id_map@),
                want == result_blocks(calls_view(pending@), outs, ids),
                out@.len() == i,
                forall|j: int| 0 <= j < i ==> #[trigger] out@[j]@ == want[j],
            decreases pending@.len() - i,
        {
            let id = pending[i].id.0;
            let (ok, content) = match find_id(&self.results, id) {
                Some(k) => {
                    proof {
                        lemma_first_with_at(self.results@, id, k as int);
                        lemma_first_with_at(outs, id, k as int);
                    }
                    (self.results[k].1.ok, self.results[k].1.content.deep_copy())
                },
                None => {
                    proof {
                        lemma_first_with_none(outs, id);
                    }
                    (false, JsonValue::string("missing result"))
                },
            };
            let api = match find_id(id_map, id) {
                Some(k) => {
                    proof {
                        lemma_first_with_at(ids, id, k as int);
                    }
                    id_map[k].1.clone()
                },
                None => {
                    proof {
                        lemma_first_with_none(ids, id);
                    }
                    String::new()
                },
            };
            out.push(ContentBlock::ToolResult { tool_use_id: api, content, is_error: !ok });
            proof {
                assert(calls_view(pending@)[i as int].id == id);
            }
            i = i + 1;
        }
        proof {
            assert(blocks_view(out@) =~= want);
        }
        out
    }
}

/// A collector is done exactly when every call of its round has a result.
pub proof fn law_done_when_every_call_answered(c: ResultCollector)
    requires
        c.wf(),
    ensures
        (c.remaining@.len() == 0) <==> forall|i: int|
            0 <= i < c.calls@.len() ==> #[trigger] first_with(outputs_view(c.results@), c.calls@[i])
                is Some,
{
    let outs = outputs_view(c.results@);
    if c.remaining@.len() == 0 {
        assert forall|i: int| 0 <= i < c.calls@.len() implies #[trigger] first_with(outs, c.calls@[i]) is Some by {
            let id = c.calls@[i];
            assert(c.calls@.contains(id));
            assert(!c.remaining@.contains(id));
        }
    } else {
        let id = c.remaining@[0];
        assert(c.remaining@.contains(id));
        let i = choose|i: int| 0 <= i < c.calls@.len() && c.calls@[i] == id;
        assert(first_with(outs, c.calls@[i]) is None);
    }
}

/// The result block of a call carries the provider id recorded for that
/// call and the output received for it, and is an error exactly when that
/// output is not ok.
pub proof fn law_result_answers_its_call(
    calls: Seq<ToolCallView>,
    outputs: Seq<(u64, (bool, JsonView))>,
    ids: Seq<(u64, Seq<char>)>,
    i: int,
    api: Seq<char>,
    ok: bool,
    content: JsonView,
)
    requires
        0 <= i < calls.len(),
        first_with(ids, calls[i].id) == Some(api),
        first_with(outputs, calls[i].id) == Some((ok, content)),
    ensures
        result_blocks(calls, outputs, ids).len() == calls.len(),
        result_blocks(calls, outputs, ids)[i] == BlockView::ToolResult(api, content, !ok),
{
}

} // verus!
