//! The session protocol loop: the conversation transcript, the
//! decisions taken on each model response, tool dispatch within a turn,
//! and the discipline on terminal events.

use vstd::prelude::*;
use vstd::string::StringExecFns;
use vstd::utf8::encode_utf8;

use crate::buffer::OutputBuffer;
use crate::buffer::spec_append;
use crate::channels::ChannelNode;
use crate::channels::LogStore;
use crate::slug::spec_slugify;
use crate::text::all_ws;
use crate::text::has_non_ws;
use crate::text::str_chars;
use crate::text::lossy_utf8;
use crate::tools::ToolInput;
use crate::tools::execute_copy;
use crate::tools::execute_output;
use crate::tools::execute_search;
use crate::tools::prepare_done;
use crate::tools::spec_copy_outcome;
use crate::tools::spec_output_outcome;
use crate::tools::spec_search_outcome;
use crate::tools::spec_summary;
use crate::tools::summarize_input;
use crate::tools::text_or_empty;

verus! {

/// One event on a session's outbound stream.
pub enum SseEvent {
    ToolCall { name: String, input_summary: String },
    ToolResult { name: String, output_preview: String },
    Display(String),
    Done { url: String, output: String },
    Error(String),
}

/// Terminal events end the stream: at most one is ever emitted.
pub open spec fn is_terminal(e: SseEvent) -> bool {
    e is Done || e is Error
}

pub open spec fn terminal_count(evs: Seq<SseEvent>) -> int
    decreases evs.len(),
{
    if evs.len() == 0 {
        0
    } else {
        terminal_count(evs.drop_last()) + (if is_terminal(evs.last()) {
            1int
        } else {
            0int
        })
    }
}

/// The discipline every step of a session obeys: a step that starts
/// with the terminal already emitted emits no further terminal, no step
/// emits more than one, and the flag records exactly whether one has
/// been emitted.
pub open spec fn emits_ok(pre: bool, evs: Seq<SseEvent>, post: bool) -> bool {
    &&& post == (pre || terminal_count(evs) > 0)
    &&& terminal_count(evs) + (if pre {
        1int
    } else {
        0int
    }) <= 1
}

pub proof fn lemma_terminal_count_nonneg(evs: Seq<SseEvent>)
    ensures
        terminal_count(evs) >= 0,
    decreases evs.len(),
{
    if evs.len() > 0 {
        lemma_terminal_count_nonneg(evs.drop_last());
    }
}

pub proof fn lemma_terminal_count_concat(a: Seq<SseEvent>, b: Seq<SseEvent>)
    ensures
        terminal_count(a + b) == terminal_count(a) + terminal_count(b),
    decreases b.len(),
{
    if b.len() == 0 {
        assert(a + b =~= a);
    } else {
        lemma_terminal_count_concat(a, b.drop_last());
        assert((a + b).drop_last() =~= a + b.drop_last());
        assert((a + b).last() == b.last());
    }
}

pub open spec fn total_terminals(batches: Seq<Seq<SseEvent>>) -> int
    decreases batches.len(),
{
    if batches.len() == 0 {
        0
    } else {
        total_terminals(batches.drop_last()) + terminal_count(batches.last())
    }
}

/// In any run of a session — any chain of step event batches that each
/// obey `emits_ok`, starting with no terminal emitted — at most one
/// terminal event is ever produced.
pub proof fn lemma_at_most_one_terminal(flags: Seq<bool>, batches: Seq<Seq<SseEvent>>)
    requires
        flags.len() == batches.len() + 1,
        !flags[0],
        forall|i: int|
            0 <= i < batches.len() ==> emits_ok(flags[i], #[trigger] batches[i], flags[i + 1]),
    ensures
        total_terminals(batches) == (if flags.last() {
            1int
        } else {
            0int
        }),
        total_terminals(batches) <= 1,
    decreases batches.len(),
{
    if batches.len() == 0 {
        assert(flags.last() == flags[0]);
    } else {
        let n = batches.len();
        assert forall|i: int|
            0 <= i < batches.drop_last().len() implies emits_ok(
            flags.drop_last()[i],
            #[trigger] batches.drop_last()[i],
            flags.drop_last()[i + 1],
        ) by {
            assert(batches.drop_last()[i] == batches[i]);
            assert(emits_ok(flags[i], batches[i], flags[i + 1]));
        }
        lemma_at_most_one_terminal(flags.drop_last(), batches.drop_last());
        assert(emits_ok(flags[n - 1], batches[n - 1], flags[n as int]));
        lemma_terminal_count_nonneg(batches[n - 1]);
        assert(flags.drop_last().last() == flags[n - 1]);
        assert(batches.last() == batches[n - 1]);
        assert(flags.last() == flags[n as int]);
    }
}

#[derive(Clone, Copy, PartialEq, Eq, Structural, Debug)]
pub enum Role {
    User,
    Assistant,
}

/// One block of a message's content.
pub enum ContentBlock {
    Text(String),
    ToolUse { id: String, name: String, input: ToolInput },
    ToolResult { id: String, text: String },
}

pub struct Message {
    pub role: Role,
    pub content: Vec<ContentBlock>,
}

/// A parsed model response: its stop reason and content blocks.
pub struct ModelResponse {
    pub stop_reason: String,
    pub content: Option<Vec<ContentBlock>>,
}

/// A session event reduced to the text it carries, for stating event
/// sequences in contracts.
pub ghost enum EventView {
    ToolCall { name: Seq<char>, summary: Seq<char> },
    ToolResult { name: Seq<char>, preview: Seq<char> },
    Display { text: Seq<char> },
    Done { url: Seq<char>, output: Seq<char> },
    Error { msg: Seq<char> },
}

/// The view of one event.
pub open spec fn ev_view(e: SseEvent) -> EventView {
    match e {
        SseEvent::ToolCall { name, input_summary } => EventView::ToolCall {
            name: name@,
            summary: input_summary@,
        },
        SseEvent::ToolResult { name, output_preview } => EventView::ToolResult {
            name: name@,
            preview: output_preview@,
        },
        SseEvent::Display(t) => EventView::Display { text: t@ },
        SseEvent::Done { url, output } => EventView::Done { url: url@, output: output@ },
        SseEvent::Error(m) => EventView::Error { msg: m@ },
    }
}

/// The view of an event sequence.
pub open spec fn evs_view(s: Seq<SseEvent>) -> Seq<EventView> {
    s.map_values(|e: SseEvent| ev_view(e))
}

/// Tool results as (id, text) pairs of views.
pub open spec fn res_views(s: Seq<(String, String)>) -> Seq<(Seq<char>, Seq<char>)> {
    s.map_values(|p: (String, String)| (p.0@, p.1@))
}

/// The session state a turn's tool calls thread through: the output
/// buffer, the tool results gathered so far, whether the terminal event
/// has been emitted, and whether the session stops after this turn.
pub ghost struct TurnState {
    pub buf: Seq<u8>,
    pub results: Seq<(Seq<char>, Seq<char>)>,
    pub terminal: bool,
    pub stop: bool,
}

/// One non-suspending tool block's effect: the state after it and the
/// events it emits.  Each non-silent tool is bracketed by a ToolCall
/// and a ToolResult event; `display` emits only its Display event;
/// `abort` emits the terminal Error unless one was already emitted.
pub open spec fn turn_step(
    st: TurnState,
    id: Seq<char>,
    name: Seq<char>,
    input: ToolInput,
    tree: ChannelNode,
    store: LogStore,
) -> (TurnState, Seq<EventView>) {
    let call = EventView::ToolCall { name: name, summary: spec_summary(input) };
    match input {
        ToolInput::Search(si) => {
            let res = spec_search_outcome(si, tree, store);
            (
                TurnState {
                    buf: st.buf,
                    results: st.results.push((id, res)),
                    terminal: st.terminal,
                    stop: st.stop,
                },
                seq![call, EventView::ToolResult { name: name, preview: res }],
            )
        },
        ToolInput::Copy(ci) => {
            let out = spec_copy_outcome(ci, tree, store, st.buf);
            (
                TurnState {
                    buf: out.0,
                    results: st.results.push((id, out.1)),
                    terminal: st.terminal,
                    stop: st.stop,
                },
                seq![call, EventView::ToolResult { name: name, preview: out.1 }],
            )
        },
        ToolInput::Output(oi) => {
            let out = spec_output_outcome(oi, st.buf);
            (
                TurnState {
                    buf: out.0,
                    results: st.results.push((id, out.1)),
                    terminal: st.terminal,
                    stop: st.stop,
                },
                seq![call, EventView::ToolResult { name: name, preview: out.1 }],
            )
        },
        ToolInput::Done(_) => {
            let res = "error: title is required"@;
            (
                TurnState {
                    buf: st.buf,
                    results: st.results.push((id, res)),
                    terminal: st.terminal,
                    stop: true,
                },
                seq![call, EventView::ToolResult { name: name, preview: res }],
            )
        },
        ToolInput::Display(di) => {
            (
                TurnState {
                    buf: st.buf,
                    results: st.results.push((id, "ok"@)),
                    terminal: st.terminal,
                    stop: st.stop,
                },
                seq![EventView::Display { text: text_or_empty(di.text) }],
            )
        },
        ToolInput::Abort => {
            (
                TurnState {
                    buf: st.buf,
                    results: st.results.push((id, "aborted"@)),
                    terminal: true,
                    stop: true,
                },
                if st.terminal {
                    Seq::<EventView>::empty()
                } else {
                    seq![EventView::Error { msg: "no relevant results found"@ }]
                },
            )
        },
        ToolInput::Unknown { .. } => {
            let res = "unknown tool: "@ + name;
            (
                TurnState {
                    buf: st.buf,
                    results: st.results.push((id, res)),
                    terminal: st.terminal,
                    stop: st.stop,
                },
                seq![call, EventView::ToolResult { name: name, preview: res }],
            )
        },
    }
}

/// A `done` call carrying a non-empty title: it suspends the turn for
/// its artifact write.
pub open spec fn suspends(b: ContentBlock) -> bool {
    b is ToolUse && b->ToolUse_input is Done && {
        let t = b->ToolUse_input->Done_0.title;
        t is Some && t.unwrap()@.len() > 0
    }
}

/// How a turn's remaining blocks play out: run to the end, or suspended
/// at a titled `done` awaiting the artifact write.  Either way the
/// final state and the events added from block `i` on are carried.
pub ghost enum TurnEnd {
    Completed { st: TurnState, evs: Seq<EventView> },
    Suspended { st: TurnState, at: int, evs: Seq<EventView> },
}

/// Folds the dispatch of `blocks[i..]` over the state: non-tool blocks
/// are skipped, each tool block steps the state and emits its events,
/// and a titled `done` suspends the turn after its audit ToolCall.
pub open spec fn run_blocks(
    blocks: Seq<ContentBlock>,
    i: int,
    st: TurnState,
    tree: ChannelNode,
    store: LogStore,
) -> TurnEnd
    decreases blocks.len() - i when 0 <= i <= blocks.len()
{
    if i >= blocks.len() {
        TurnEnd::Completed { st, evs: Seq::<EventView>::empty() }
    } else if !(blocks[i] is ToolUse) {
        run_blocks(blocks, i + 1, st, tree, store)
    } else if suspends(blocks[i]) {
        TurnEnd::Suspended {
            st,
            at: i,
            evs: seq![
                EventView::ToolCall {
                    name: blocks[i]->ToolUse_name@,
                    summary: spec_summary(blocks[i]->ToolUse_input),
                },
            ],
        }
    } else {
        let sp = turn_step(
            st,
            blocks[i]->ToolUse_id@,
            blocks[i]->ToolUse_name@,
            blocks[i]->ToolUse_input,
            tree,
            store,
        );
        match run_blocks(blocks, i + 1, sp.0, tree, store) {
            TurnEnd::Completed { st, evs } => TurnEnd::Completed { st, evs: sp.1 + evs },
            TurnEnd::Suspended { st, at, evs } => TurnEnd::Suspended { st, at, evs: sp.1 + evs },
        }
    }
}

/// A turn that starts stopped stays stopped.
pub proof fn lemma_run_blocks_stop(
    blocks: Seq<ContentBlock>,
    i: int,
    st: TurnState,
    tree: ChannelNode,
    store: LogStore,
)
    requires
        0 <= i <= blocks.len(),
        st.stop,
    ensures
        run_blocks(blocks, i, st, tree, store) matches TurnEnd::Completed { st: st1, .. }
            ==> st1.stop,
    decreases blocks.len() - i,
{
    if i < blocks.len() {
        if !(blocks[i] is ToolUse) {
            lemma_run_blocks_stop(blocks, i + 1, st, tree, store);
        } else if !suspends(blocks[i]) {
            let sp = turn_step(
                st,
                blocks[i]->ToolUse_id@,
                blocks[i]->ToolUse_name@,
                blocks[i]->ToolUse_input,
                tree,
                store,
            );
            lemma_run_blocks_stop(blocks, i + 1, sp.0, tree, store);
        }
    }
}

/// The user message that closes a turn: one tool-result block per
/// gathered result, keyed by the originating block's id, in order.
pub open spec fn results_msg(
    content: Seq<ContentBlock>,
    results: Seq<(Seq<char>, Seq<char>)>,
) -> bool {
    &&& content.len() == results.len()
    &&& forall|k: int|
        0 <= k < results.len() ==> (#[trigger] content[k]) is ToolResult
            && content[k]->ToolResult_id@ == results[k].0 && content[k]->ToolResult_text@
            == results[k].1
}

#[derive(Clone, Copy, PartialEq, Eq, Structural, Debug)]
pub enum Phase {
    Ready,
    AwaitingModel,
    AwaitingWrite,
    Finished,
}

/// Where a suspended tool turn picks up once the artifact write comes
/// back.
pub struct TurnResume {
    pub blocks: Vec<ContentBlock>,
    pub next_index: usize,
    pub results: Vec<(String, String)>,
}

/// A `done` call waiting for its artifact write.
pub struct PendingDone {
    pub tool_id: String,
    pub url: String,
    pub output_text: String,
    pub from_turn: Option<TurnResume>,
}

/// What the caller must do after a step.
pub enum Action {
    /// Take another turn: serialize the transcript and call `begin_turn`.
    Continue,
    /// Send the transcript to the model, then report through
    /// `handle_response` or `transport_failed`.
    Request,
    /// Write the artifact, then report through `write_finished`.
    Write { filename: String, content: Vec<u8> },
    /// The session is over.
    Stop,
}

pub struct StepResult {
    pub events: Vec<SseEvent>,
    pub action: Action,
}

/// One agent session: the conversation state between admission and the
/// terminal event.
pub struct Session {
    pub query: String,
    pub base_path: String,
    pub max_turns: u64,
    pub transcript: Vec<Message>,
    pub buffer: OutputBuffer,
    pub turns_taken: u64,
    pub phase: Phase,
    pub pending: Option<PendingDone>,
    pub terminal_emitted: bool,
}

/// The text of a response's `Text` blocks, in order.
pub open spec fn collected_text(blocks: Seq<ContentBlock>) -> Seq<char>
    decreases blocks.len(),
{
    if blocks.len() == 0 {
        Seq::<char>::empty()
    } else {
        collected_text(blocks.drop_last()) + (if blocks.last() is Text {
            blocks.last()->Text_0@
        } else {
            Seq::<char>::empty()
        })
    }
}

impl Session {
    pub open spec fn wf(&self) -> bool {
        &&& self.buffer.wf()
        &&& (self.phase is AwaitingWrite <==> self.pending is Some)
        &&& (match self.pending {
            Some(pd) => match pd.from_turn {
                Some(tr) => tr.next_index <= tr.blocks@.len(),
                None => true,
            },
            None => true,
        })
    }

    pub fn new(query: String, base_path: String, max_turns: u64) -> (r: Session)
        ensures
            r.wf(),
            r.query == query,
            r.base_path == base_path,
            r.max_turns == max_turns,
            r.transcript@.len() == 0,
            r.buffer@.len() == 0,
            r.turns_taken == 0,
            r.phase is Ready,
            !r.terminal_emitted,
    {
        Session {
            query,
            base_path,
            max_turns,
            transcript: Vec::new(),
            buffer: OutputBuffer::new(),
            turns_taken: 0,
            phase: Phase::Ready,
            pending: None,
            terminal_emitted: false,
        }
    }

    /// Records the user's query as the first transcript message.
    pub fn push_query_message(&mut self)
        requires
            old(self).wf(),
        ensures
            final(self).wf(),
            final(self).transcript@.len() == old(self).transcript@.len() + 1,
            old(self).transcript@.is_prefix_of(final(self).transcript@),
            final(self).transcript@.last().role is User,
            final(self).transcript@.last().content@.len() == 1,
            final(self).transcript@.last().content@[0] is Text,
            final(self).transcript@.last().content@[0]->Text_0@ == old(self).query@,
            final(self).terminal_emitted == old(self).terminal_emitted,
            final(self).phase == old(self).phase,
            final(self).query == old(self).query,
    {
        let mut content: Vec<ContentBlock> = Vec::new();
        content.push(ContentBlock::Text(self.query.clone()));
        self.transcript.push(Message { role: Role::User, content });
        proof {
            assert(old(self).transcript@.is_prefix_of(self.transcript@));
        }
    }

    /// Where the prompt-caching marker goes: the last content block of
    /// the final message, and nowhere else.
    pub fn cache_marker_position(&self) -> (r: Option<(usize, usize)>)
        ensures
            match r {
                Some(p) => {
                    &&& self.transcript@.len() > 0
                    &&& p.0 == self.transcript@.len() - 1
                    &&& self.transcript@.last().content@.len() > 0
                    &&& p.1 == self.transcript@.last().content@.len() - 1
                },
                None => self.transcript@.len() == 0 || self.transcript@.last().content@.len() == 0,
            },
    {
        let n = self.transcript.len();
        if n == 0 {
            return None;
        }
        let m = self.transcript[n - 1].content.len();
        if m == 0 {
            return None;
        }
        Some((n - 1, m - 1))
    }

    /// Pushes a terminal event unless one was already emitted.
    fn emit_terminal(&mut self, evs: &mut Vec<SseEvent>, e: SseEvent)
        requires
            is_terminal(e),
        ensures
            final(self).terminal_emitted,
            final(self).query == old(self).query,
            final(self).base_path == old(self).base_path,
            final(self).max_turns == old(self).max_turns,
            final(self).transcript == old(self).transcript,
            final(self).buffer == old(self).buffer,
            final(self).turns_taken == old(self).turns_taken,
            final(self).phase == old(self).phase,
            final(self).pending == old(self).pending,
            if old(self).terminal_emitted {
                final(evs)@ == old(evs)@
            } else {
                final(evs)@ == old(evs)@.push(e)
            },
            terminal_count(final(evs)@) == terminal_count(old(evs)@) + (if old(self).terminal_emitted {
                0int
            } else {
                1int
            }),
    {
        proof {
            if !self.terminal_emitted {
                assert(old(evs)@.push(e).drop_last() =~= old(evs)@);
            }
        }
        if !self.terminal_emitted {
            evs.push(e);
            self.terminal_emitted = true;
        }
    }

    /// Starts the next turn, if the session may take one: checks the
    /// tool-call budget and the serialized-transcript size guard.
    pub fn begin_turn(&mut self, serialized_len: usize) -> (r: StepResult)
        requires
            old(self).wf(),
        ensures
            final(self).wf(),
            emits_ok(old(self).terminal_emitted, r.events@, final(self).terminal_emitted),
            final(self).transcript == old(self).transcript,
            !(old(self).phase is Ready) ==> r.action is Stop && r.events@.len() == 0 && *final(self) == *old(self),
            old(self).phase is Ready && old(self).turns_taken >= old(self).max_turns ==> r.action
                is Stop && r.events@.len() == 0 && final(self).phase is Finished,
            old(self).phase is Ready && old(self).turns_taken < old(self).max_turns
                && serialized_len > 150000 ==> r.action is Stop && final(self).phase is Finished
                && (!old(self).terminal_emitted ==> r.events@.len() == 1 && r.events@[0] is Error
                && r.events@[0]->Error_0@ == "context limit reached"@),
            old(self).phase is Ready && old(self).turns_taken < old(self).max_turns
                && serialized_len <= 150000 ==> r.action is Request && final(self).phase
                is AwaitingModel && final(self).turns_taken == old(self).turns_taken + 1
                && r.events@.len() == 0 && final(self).terminal_emitted == old(self).terminal_emitted,
    {
        let mut evs: Vec<SseEvent> = Vec::new();
        if !matches!(self.phase, Phase::Ready) {
            return StepResult { events: evs, action: Action::Stop };
        }
        if self.turns_taken >= self.max_turns {
            self.phase = Phase::Finished;
            return StepResult { events: evs, action: Action::Stop };
        }
        if serialized_len > 150000 {
            self.emit_terminal(
                &mut evs,
                SseEvent::Error(String::from_str("context limit reached")),
            );
            self.phase = Phase::Finished;
            proof {
                lemma_terminal_count_nonneg(evs@);
            }
            return StepResult { events: evs, action: Action::Stop };
        }
        self.turns_taken = self.turns_taken + 1;
        self.phase = Phase::AwaitingModel;
        StepResult { events: evs, action: Action::Request }
    }

    /// Ends the session on a transport or protocol failure: the message
    /// becomes the terminal Error event and the loop stops, never
    /// retried.
    pub fn transport_failed(&mut self, message: String) -> (r: StepResult)
        requires
            old(self).wf(),
        ensures
            final(self).wf(),
            emits_ok(old(self).terminal_emitted, r.events@, final(self).terminal_emitted),
            final(self).transcript == old(self).transcript,
            final(self).phase is Finished,
            r.action is Stop,
            !old(self).terminal_emitted ==> r.events@.len() == 1 && r.events@[0] is Error
                && r.events@[0]->Error_0@ == message@,
    {
        let mut evs: Vec<SseEvent> = Vec::new();
        self.emit_terminal(&mut evs, SseEvent::Error(message));
        self.phase = Phase::Finished;
        self.pending = None;
        proof {
            lemma_terminal_count_nonneg(evs@);
        }
        StepResult { events: evs, action: Action::Stop }
    }

    /// Collects the text content of the blocks.
    fn collect_text(blocks: &Vec<ContentBlock>) -> (r: String)
        ensures
            r@ == collected_text(blocks@),
    {
        let n = blocks.len();
        let mut out = String::new();
        let mut i: usize = 0;
        while i < n
            invariant
                i <= n,
                n == blocks@.len(),
                out@ == collected_text(blocks@.take(i as int)),
            decreases n - i,
        {
            match &blocks[i] {
                ContentBlock::Text(t) => {
                    out.append(t.as_str());
                },
                _ => {},
            }
            proof {
                assert(blocks@.take(i + 1).drop_last() =~= blocks@.take(i as int));
                assert(blocks@.take(i + 1).last() == blocks@[i as int]);
            }
            i += 1;
        }
        assert(blocks@.take(n as int) =~= blocks@);
        out
    }

    /// Handles one model response: collect a final answer on
    /// `end_turn`, run the tools of a `tool_use` turn in order, and
    /// treat anything else as a fatal protocol error.
    pub fn handle_response(
        &mut self,
        resp: ModelResponse,
        tree: &ChannelNode,
        store: &LogStore,
    ) -> (r: StepResult)
        requires
            old(self).wf(),
        ensures
            final(self).wf(),
            emits_ok(old(self).terminal_emitted, r.events@, final(self).terminal_emitted),
            old(self).transcript@.is_prefix_of(final(self).transcript@),
            !(old(self).phase is AwaitingModel) ==> r.action is Stop && r.events@.len() == 0 && *final(self) == *old(self),
            old(self).phase is AwaitingModel && resp.stop_reason@ != "end_turn"@
                && resp.stop_reason@ != "tool_use"@ ==> final(self).phase is Finished && r.action
                is Stop && (!old(self).terminal_emitted ==> r.events@.len() == 1 && r.events@[0]
                is Error && r.events@[0]->Error_0@ == "unexpected stop_reason: "@
                + resp.stop_reason@),
            old(self).phase is AwaitingModel && resp.stop_reason@ == "tool_use"@ && resp.content
                is None ==> final(self).phase is Finished && r.action is Stop && r.events@.len()
                == 0,
            ({
                let txt = match resp.content {
                    Some(bs) => collected_text(bs@),
                    None => Seq::<char>::empty(),
                };
                let b2 = if all_ws(txt) {
                    old(self).buffer@
                } else {
                    spec_append(old(self).buffer@, encode_utf8(txt) + seq![10u8])
                };
                old(self).phase is AwaitingModel && resp.stop_reason@ == "end_turn"@ ==> {
                    &&& final(self).buffer@ == b2
                    &&& (b2.len() == 0 ==> final(self).phase is Finished && r.action is Stop && (
                    !old(self).terminal_emitted ==> r.events@.len() == 1 && r.events@[0] is Error
                        && r.events@[0]->Error_0@ == "no results found"@))
                    &&& (b2.len() > 0 && old(self).query@.len() == 0 ==> final(self).phase
                        is Finished && r.action is Stop && r.events@.len() == 0)
                    &&& (b2.len() > 0 && old(self).query@.len() > 0 ==> final(self).phase
                        is AwaitingWrite && r.events@.len() == 0 && r.action is Write
                        && r.action->Write_filename@ == spec_slugify(old(self).query@) + ".md"@
                        && r.action->Write_content@ == b2 && final(self).pending is Some && final(self).pending.unwrap().url@ == old(self).base_path@ + "/ask/output/"@
                        + spec_slugify(old(self).query@) + ".html"@ && final(self).pending.unwrap().from_turn is None)
                }
            }),
            ({
                old(self).phase is AwaitingModel && resp.stop_reason@ == "tool_use"@
                    && resp.content is Some && resp.content.unwrap()@.len() == 1
                    && resp.content.unwrap()@[0] is ToolUse && resp.content.unwrap()@[0]
                    ->ToolUse_input is Abort && !old(self).terminal_emitted ==> r.events@.len()
                    == 1 && r.events@[0] is Error && r.events@[0]->Error_0@
                    == "no relevant results found"@ && final(self).phase is Finished && r.action
                    is Stop
            }),
            ({
                let blocks = resp.content.unwrap();
                let st0 = TurnState {
                    buf: old(self).buffer@,
                    results: Seq::<(Seq<char>, Seq<char>)>::empty(),
                    terminal: old(self).terminal_emitted,
                    stop: false,
                };
                let base = old(self).transcript@.len() as int;
                old(self).phase is AwaitingModel && resp.stop_reason@ == "tool_use"@
                    && resp.content is Some ==> match run_blocks(
                    blocks@,
                    0,
                    st0,
                    *tree,
                    *store,
                ) {
                    TurnEnd::Completed { st, evs: tevs } => {
                        &&& evs_view(r.events@) == tevs
                        &&& final(self).buffer@ == st.buf
                        &&& final(self).terminal_emitted == st.terminal
                        &&& (st.stop ==> r.action is Stop && final(self).phase is Finished)
                        &&& (!st.stop ==> r.action is Continue && final(self).phase is Ready)
                        &&& final(self).transcript@.len() == base + 2
                        &&& final(self).transcript@[base].role is Assistant
                        &&& final(self).transcript@[base].content@ == blocks@
                        &&& final(self).transcript@[base + 1].role is User
                        &&& results_msg(final(self).transcript@[base + 1].content@, st.results)
                    },
                    TurnEnd::Suspended { st, at, evs: tevs } => {
                        let blk = blocks@[at];
                        let title = blk->ToolUse_input->Done_0.title.unwrap()@;
                        &&& evs_view(r.events@) == tevs
                        &&& final(self).buffer@ == st.buf
                        &&& final(self).terminal_emitted == st.terminal
                        &&& r.action is Write
                        &&& r.action->Write_filename@ == spec_slugify(title) + ".md"@
                        &&& r.action->Write_content@ == st.buf
                        &&& final(self).phase is AwaitingWrite
                        &&& final(self).pending is Some
                        &&& final(self).pending.unwrap().tool_id@ == blk->ToolUse_id@
                        &&& final(self).pending.unwrap().url@ == old(self).base_path@
                            + "/ask/output/"@ + spec_slugify(title) + ".html"@
                        &&& final(self).pending.unwrap().output_text@ == lossy_utf8(st.buf)
                        &&& final(self).pending.unwrap().from_turn is Some
                        &&& final(self).pending.unwrap().from_turn.unwrap().blocks@ == blocks@
                        &&& final(self).pending.unwrap().from_turn.unwrap().next_index == at + 1
                        &&& res_views(final(self).pending.unwrap().from_turn.unwrap().results@)
                            == st.results
                        &&& final(self).transcript == old(self).transcript
                    },
                }
            }),
    {
        proof {
            reveal_strlit("end_turn");
            reveal_strlit("tool_use");
            assert("end_turn"@ != "tool_use"@) by {
                assert("end_turn"@[0] != "tool_use"@[0]);
            }
        }
        let mut evs: Vec<SseEvent> = Vec::new();
        if !matches!(self.phase, Phase::AwaitingModel) {
            return StepResult { events: evs, action: Action::Stop };
        }
        if crate::text::str_eq(resp.stop_reason.as_str(), "end_turn") {
            let text = match &resp.content {
                Some(bs) => Self::collect_text(bs),
                None => String::new(),
            };
            let tv = str_chars(text.as_str());
            if has_non_ws(&tv) {
                self.buffer.append_line(text.as_str());
            }
            if self.buffer.byte_len() == 0 {
                self.emit_terminal(
                    &mut evs,
                    SseEvent::Error(String::from_str("no results found")),
                );
                self.phase = Phase::Finished;
                proof {
                    lemma_terminal_count_nonneg(evs@);
                }
                return StepResult { events: evs, action: Action::Stop };
            }
            if self.query.as_str().unicode_len() == 0 {
                self.phase = Phase::Finished;
                return StepResult { events: evs, action: Action::Stop };
            }
            let title = self.query.clone();
            let dr = prepare_done(title.as_str(), &self.buffer, self.base_path.as_str());
            self.pending = Some(
                PendingDone {
                    tool_id: String::new(),
                    url: dr.url,
                    output_text: dr.output_text,
                    from_turn: None,
                },
            );
            self.phase = Phase::AwaitingWrite;
            return StepResult {
                events: evs,
                action: Action::Write { filename: dr.filename, content: dr.content },
            };
        }
        if crate::text::str_eq(resp.stop_reason.as_str(), "tool_use") {
            let blocks = match resp.content {
                Some(bs) => bs,
                None => {
                    self.phase = Phase::Finished;
                    return StepResult { events: evs, action: Action::Stop };
                },
            };
            let results: Vec<(String, String)> = Vec::new();
            proof {
                assert(res_views(results@) =~= Seq::<(Seq<char>, Seq<char>)>::empty());
            }
            let r = self.process_blocks(blocks, 0, results, false, evs, tree, store);
            proof {
                assert(r.events@.skip(0) =~= r.events@);
            }
            return r;
        }
        let mut msg = String::from_str("unexpected stop_reason: ");
        msg.append(resp.stop_reason.as_str());
        self.emit_terminal(&mut evs, SseEvent::Error(msg));
        self.phase = Phase::Finished;
        proof {
            lemma_terminal_count_nonneg(evs@);
        }
        StepResult { events: evs, action: Action::Stop }
    }

    /// Runs the tool-use blocks from `i` on, in transcript order; each
    /// non-silent tool is bracketed by audit events, and a `done`
    /// suspends the turn for its artifact write.
    fn process_blocks(
        &mut self,
        blocks: Vec<ContentBlock>,
        i: usize,
        results: Vec<(String, String)>,
        should_stop: bool,
        evs: Vec<SseEvent>,
        tree: &ChannelNode,
        store: &LogStore,
    ) -> (r: StepResult)
        requires
            old(self).wf(),
            old(self).pending is None,
            i <= blocks@.len(),
        ensures
            final(self).wf(),
            old(self).transcript@.is_prefix_of(final(self).transcript@),
            evs@.is_prefix_of(r.events@),
            emits_ok(
                old(self).terminal_emitted,
                r.events@.skip(evs@.len() as int),
                final(self).terminal_emitted,
            ),
            forall|q: int|
                evs@.len() <= q < r.events@.len() ==> !((#[trigger] r.events@[q]) is Done),
            r.action is Stop ==> final(self).phase is Finished,
            r.action is Continue ==> final(self).phase is Ready,
            r.action is Write ==> final(self).phase is AwaitingWrite,
            !(r.action is Request),
            i == blocks@.len() ==> r.events@ == evs@ && (should_stop ==> r.action is Stop) && (
            !should_stop ==> r.action is Continue),
            blocks@.len() == i + 1 && blocks@[i as int] is ToolUse && blocks@[i as int]
                ->ToolUse_input is Abort && !old(self).terminal_emitted ==> r.events@.len()
                == evs@.len() + 1 && r.events@.last() is Error && r.events@.last()->Error_0@
                == "no relevant results found"@ && final(self).phase is Finished && r.action
                is Stop,
            ({
                let st0 = TurnState {
                    buf: old(self).buffer@,
                    results: res_views(results@),
                    terminal: old(self).terminal_emitted,
                    stop: should_stop,
                };
                let base = old(self).transcript@.len() as int;
                match run_blocks(blocks@, i as int, st0, *tree, *store) {
                    TurnEnd::Completed { st, evs: tevs } => {
                        &&& evs_view(r.events@.skip(evs@.len() as int)) == tevs
                        &&& final(self).buffer@ == st.buf
                        &&& final(self).terminal_emitted == st.terminal
                        &&& (st.stop ==> r.action is Stop)
                        &&& (!st.stop ==> r.action is Continue)
                        &&& final(self).transcript@.len() == base + 2
                        &&& final(self).transcript@[base].role is Assistant
                        &&& final(self).transcript@[base].content@ == blocks@
                        &&& final(self).transcript@[base + 1].role is User
                        &&& results_msg(final(self).transcript@[base + 1].content@, st.results)
                    },
                    TurnEnd::Suspended { st, at, evs: tevs } => {
                        let blk = blocks@[at];
                        let title = blk->ToolUse_input->Done_0.title.unwrap()@;
                        &&& evs_view(r.events@.skip(evs@.len() as int)) == tevs
                        &&& final(self).buffer@ == st.buf
                        &&& final(self).terminal_emitted == st.terminal
                        &&& r.action is Write
                        &&& r.action->Write_filename@ == spec_slugify(title) + ".md"@
                        &&& r.action->Write_content@ == st.buf
                        &&& final(self).pending is Some
                        &&& final(self).pending.unwrap().tool_id@ == blk->ToolUse_id@
                        &&& final(self).pending.unwrap().url@ == old(self).base_path@
                            + "/ask/output/"@ + spec_slugify(title) + ".html"@
                        &&& final(self).pending.unwrap().output_text@ == lossy_utf8(st.buf)
                        &&& final(self).pending.unwrap().from_turn is Some
                        &&& final(self).pending.unwrap().from_turn.unwrap().blocks@ == blocks@
                        &&& final(self).pending.unwrap().from_turn.unwrap().next_index == at + 1
                        &&& res_views(final(self).pending.unwrap().from_turn.unwrap().results@)
                            == st.results
                        &&& final(self).transcript == old(self).transcript
                    },
                }
            }),
        decreases blocks@.len() - i,
    {
        let ghost evs0 = evs@;
        let ghost st0 = TurnState {
            buf: self.buffer@,
            results: res_views(results@),
            terminal: self.terminal_emitted,
            stop: should_stop,
        };
        if i >= blocks.len() {
            let mut content: Vec<ContentBlock> = Vec::new();
            let mut rs = results;
            let ghost total = rs@;
            while rs.len() > 0
                invariant
                    content@.len() + rs@.len() == total.len(),
                    rs@ == total.skip(content@.len() as int),
                    forall|q: int|
                        0 <= q < content@.len() ==> (#[trigger] content@[q]) is ToolResult
                            && content@[q]->ToolResult_id@ == total[q].0@ && content@[q]
                            ->ToolResult_text@ == total[q].1@,
                decreases rs@.len(),
            {
                let ghost c = content@.len() as int;
                let (id, text) = rs.remove(0);
                proof {
                    assert(total.skip(c)[0] == total[c]);
                    assert(rs@ =~= total.skip(c + 1));
                }
                content.push(ContentBlock::ToolResult { id, text });
            }
            self.transcript.push(Message { role: Role::Assistant, content: blocks });
            self.transcript.push(Message { role: Role::User, content });
            proof {
                assert(old(self).transcript@.is_prefix_of(self.transcript@));
                assert(evs0.skip(evs0.len() as int) =~= Seq::<SseEvent>::empty());
                assert(evs_view(Seq::<SseEvent>::empty()) =~= Seq::<EventView>::empty());
                let base = old(self).transcript@.len() as int;
                assert(self.transcript@[base].content@ == blocks@);
                assert(results_msg(self.transcript@[base + 1].content@, st0.results));
            }
            if should_stop {
                self.phase = Phase::Finished;
                return StepResult { events: evs, action: Action::Stop };
            }
            self.phase = Phase::Ready;
            return StepResult { events: evs, action: Action::Continue };
        }
        let ghost bi = blocks@[i as int];
        let ghost sp = if bi is ToolUse && !suspends(bi) {
            turn_step(st0, bi->ToolUse_id@, bi->ToolUse_name@, bi->ToolUse_input, *tree, *store)
        } else {
            (st0, Seq::<EventView>::empty())
        };
        let mut evs2 = evs;
        let mut results2 = results;
        let mut stop2 = should_stop;
        let mut suspend: Option<(String, String)> = None;
        match &blocks[i] {
            ContentBlock::ToolUse { id, name, input } => {
                let silent = matches!(input, ToolInput::Display(_) | ToolInput::Abort);
                proof {
                    assert(silent == crate::tools::is_silent(*input));
                }
                if !silent {
                    evs2.push(
                        SseEvent::ToolCall {
                            name: name.clone(),
                            input_summary: summarize_input(input),
                        },
                    );
                }
                match input {
                    ToolInput::Search(si) => {
                        let res = execute_search(si, tree, store);
                        evs2.push(
                            SseEvent::ToolResult {
                                name: name.clone(),
                                output_preview: res.clone(),
                            },
                        );
                        results2.push((id.clone(), res));
                        proof {
                            lemma_nonterminal_slice(evs0, evs2@);
                            assert(evs_view(evs2@.skip(evs0.len() as int)) =~= sp.1);
                            assert(res_views(results2@) =~= sp.0.results);
                        }
                    },
                    ToolInput::Copy(ci) => {
                        let res = execute_copy(ci, tree, store, &mut self.buffer);
                        evs2.push(
                            SseEvent::ToolResult {
                                name: name.clone(),
                                output_preview: res.clone(),
                            },
                        );
                        results2.push((id.clone(), res));
                        proof {
                            lemma_nonterminal_slice(evs0, evs2@);
                            assert(evs_view(evs2@.skip(evs0.len() as int)) =~= sp.1);
                            assert(res_views(results2@) =~= sp.0.results);
                            assert(self.buffer@ == sp.0.buf);
                        }
                    },
                    ToolInput::Output(oi) => {
                        let res = execute_output(oi, &mut self.buffer);
                        evs2.push(
                            SseEvent::ToolResult {
                                name: name.clone(),
                                output_preview: res.clone(),
                            },
                        );
                        results2.push((id.clone(), res));
                        proof {
                            lemma_nonterminal_slice(evs0, evs2@);
                            assert(evs_view(evs2@.skip(evs0.len() as int)) =~= sp.1);
                            assert(res_views(results2@) =~= sp.0.results);
                            assert(self.buffer@ == sp.0.buf);
                        }
                    },
                    ToolInput::Done(di) => {
                        stop2 = true;
                        match &di.title {
                            Some(t) => {
                                if t.as_str().unicode_len() > 0 {
                                    suspend = Some((t.clone(), id.clone()));
                                    proof {
                                        lemma_nonterminal_slice(evs0, evs2@);
                                        assert(suspends(bi));
                                    }
                                } else {
                                    let res = String::from_str("error: title is required");
                                    evs2.push(
                                        SseEvent::ToolResult {
                                            name: name.clone(),
                                            output_preview: res.clone(),
                                        },
                                    );
                                    results2.push((id.clone(), res));
                                    proof {
                                        lemma_nonterminal_slice(evs0, evs2@);
                                        assert(!suspends(bi));
                                        assert(evs_view(evs2@.skip(evs0.len() as int)) =~= sp.1);
                                        assert(res_views(results2@) =~= sp.0.results);
                                    }
                                }
                            },
                            None => {
                                let res = String::from_str("error: title is required");
                                evs2.push(
                                    SseEvent::ToolResult {
                                        name: name.clone(),
                                        output_preview: res.clone(),
                                    },
                                );
                                results2.push((id.clone(), res));
                                proof {
                                    lemma_nonterminal_slice(evs0, evs2@);
                                    assert(!suspends(bi));
                                    assert(evs_view(evs2@.skip(evs0.len() as int)) =~= sp.1);
                                    assert(res_views(results2@) =~= sp.0.results);
                                }
                            },
                        }
                    },
                    ToolInput::Display(di) => {
                        let txt = match &di.text {
                            Some(t) => t.clone(),
                            None => String::new(),
                        };
                        evs2.push(SseEvent::Display(txt));
                        results2.push((id.clone(), String::from_str("ok")));
                        proof {
                            lemma_nonterminal_slice(evs0, evs2@);
                            assert(evs_view(evs2@.skip(evs0.len() as int)) =~= sp.1);
                            assert(res_views(results2@) =~= sp.0.results);
                        }
                    },
                    ToolInput::Abort => {
                        self.emit_terminal(
                            &mut evs2,
                            SseEvent::Error(String::from_str("no relevant results found")),
                        );
                        results2.push((id.clone(), String::from_str("aborted")));
                        stop2 = true;
                        proof {
                            lemma_prefix_slice(evs0, evs2@);
                            assert forall|q: int|
                                evs0.len() <= q < evs2@.len() implies !((#[trigger] evs2@[q])
                                is Done) by {
                                assert(evs2@[q] == evs2@.last());
                            }
                            assert(evs_view(evs2@.skip(evs0.len() as int)) =~= sp.1);
                            assert(res_views(results2@) =~= sp.0.results);
                            assert(self.terminal_emitted == sp.0.terminal);
                        }
                    },
                    ToolInput::Unknown { .. } => {
                        let mut res = String::from_str("unknown tool: ");
                        res.append(name.as_str());
                        evs2.push(
                            SseEvent::ToolResult {
                                name: name.clone(),
                                output_preview: res.clone(),
                            },
                        );
                        results2.push((id.clone(), res));
                        proof {
                            lemma_nonterminal_slice(evs0, evs2@);
                            assert(evs_view(evs2@.skip(evs0.len() as int)) =~= sp.1);
                            assert(res_views(results2@) =~= sp.0.results);
                        }
                    },
                }
            },
            _ => {
                proof {
                    lemma_nonterminal_slice(evs0, evs2@);
                    assert(evs2@.skip(evs0.len() as int) =~= Seq::<SseEvent>::empty());
                    assert(evs_view(Seq::<SseEvent>::empty()) =~= Seq::<EventView>::empty());
                    assert(res_views(results2@) == st0.results);
                }
            },
        }
        let ghost term_mid = self.terminal_emitted;
        proof {
            lemma_terminal_count_nonneg(evs2@.skip(evs0.len() as int));
            assert(emits_ok(old(self).terminal_emitted, evs2@.skip(evs0.len() as int), term_mid));
            if blocks@[i as int] is ToolUse {
                assert(stop2 == (should_stop || crate::tools::stops_session(
                    blocks@[i as int]->ToolUse_input,
                )));
            }
        }
        match suspend {
            Some(pair) => {
                let ghost evs2v = evs2@;
                proof {
                    assert(blocks@[i as int] is ToolUse);
                    assert(blocks@[i as int]->ToolUse_input is Done);
                    assert forall|q: int|
                        evs0.len() <= q < evs2v.len() implies !((#[trigger] evs2v[q]) is Done) by {
                        assert(evs2v[q] == evs2v.last());
                    }
                }
                let (title, done_id) = pair;
                let dr = prepare_done(title.as_str(), &self.buffer, self.base_path.as_str());
                self.pending = Some(
                    PendingDone {
                        tool_id: done_id,
                        url: dr.url,
                        output_text: dr.output_text,
                        from_turn: Some(
                            TurnResume { blocks, next_index: i + 1, results: results2 },
                        ),
                    },
                );
                self.phase = Phase::AwaitingWrite;
                let res = StepResult {
                    events: evs2,
                    action: Action::Write { filename: dr.filename, content: dr.content },
                };
                proof {
                    assert(res.events@ == evs2v);
                    assert(evs0.is_prefix_of(res.events@));
                    let call = EventView::ToolCall {
                        name: bi->ToolUse_name@,
                        summary: spec_summary(bi->ToolUse_input),
                    };
                    assert(run_blocks(blocks@, i as int, st0, *tree, *store) == (
                    TurnEnd::Suspended { st: st0, at: i as int, evs: seq![call] }));
                    assert(evs_view(evs2v.skip(evs0.len() as int)) =~= seq![call]);
                    assert(res_views(results2@) == st0.results);
                }
                res
            },
            None => {
                let ghost evs2v = evs2@;
                let ghost st_mid = TurnState {
                    buf: self.buffer@,
                    results: res_views(results2@),
                    terminal: self.terminal_emitted,
                    stop: stop2,
                };
                proof {
                    if bi is ToolUse {
                        assert(st_mid == sp.0);
                    } else {
                        assert(st_mid == st0);
                    }
                    assert(self.transcript@ == old(self).transcript@);
                }
                let r = self.process_blocks(blocks, i + 1, results2, stop2, evs2, tree, store);
                proof {
                    assert(r.events@.skip(evs0.len() as int) =~= evs2v.skip(evs0.len() as int)
                        + r.events@.skip(evs2v.len() as int));
                    lemma_terminal_count_concat(
                        evs2v.skip(evs0.len() as int),
                        r.events@.skip(evs2v.len() as int),
                    );
                    lemma_terminal_count_nonneg(evs2v.skip(evs0.len() as int));
                    lemma_terminal_count_nonneg(r.events@.skip(evs2v.len() as int));
                    assert(r.events@.subrange(0, evs2v.len() as int) =~= evs2v);
                    assert forall|q: int|
                        evs0.len() <= q < r.events@.len() implies !((#[trigger] r.events@[q])
                        is Done) by {
                        if q < evs2v.len() {
                            assert(r.events@[q] == evs2v[q]);
                        }
                    }
                    let rb1 = run_blocks(blocks@, i + 1, st_mid, *tree, *store);
                    if bi is ToolUse {
                        assert(run_blocks(blocks@, i as int, st0, *tree, *store) == (match rb1 {
                            TurnEnd::Completed { st, evs } => TurnEnd::Completed {
                                st,
                                evs: sp.1 + evs,
                            },
                            TurnEnd::Suspended { st, at, evs } => TurnEnd::Suspended {
                                st,
                                at,
                                evs: sp.1 + evs,
                            },
                        }));
                    } else {
                        assert(run_blocks(blocks@, i as int, st0, *tree, *store) == rb1);
                    }
                    lemma_evs_view_concat(
                        evs2v.skip(evs0.len() as int),
                        r.events@.skip(evs2v.len() as int),
                    );
                    assert(evs_view(r.events@.skip(evs0.len() as int)) == evs_view(
                        evs2v.skip(evs0.len() as int),
                    ) + evs_view(r.events@.skip(evs2v.len() as int)));
                    if !(bi is ToolUse) {
                        assert(evs_view(evs2v.skip(evs0.len() as int)) + evs_view(
                            r.events@.skip(evs2v.len() as int),
                        ) =~= evs_view(r.events@.skip(evs2v.len() as int)));
                    }
                }
                r
            },
        }
    }

    /// Takes the outcome of an artifact write: on success the terminal
    /// Done event fires; on failure the error is only reported as the
    /// tool's result text and no Done event is ever produced for the
    /// call.  A suspended turn then runs its remaining tools.
    pub fn write_finished(
        &mut self,
        error: Option<String>,
        tree: &ChannelNode,
        store: &LogStore,
    ) -> (r: StepResult)
        requires
            old(self).wf(),
        ensures
            final(self).wf(),
            emits_ok(old(self).terminal_emitted, r.events@, final(self).terminal_emitted),
            old(self).transcript@.is_prefix_of(final(self).transcript@),
            !(old(self).phase is AwaitingWrite) ==> r.action is Stop && r.events@.len() == 0 && *final(self) == *old(self),
            old(self).phase is AwaitingWrite && error is None && !old(self).terminal_emitted
                ==> r.events@.len() >= 1 && r.events@[0] is Done && r.events@[0]->Done_url@ == old(self).pending.unwrap().url@ && r.events@[0]->Done_output@ == old(self).pending.unwrap().output_text@,
            old(self).phase is AwaitingWrite && error is Some ==> forall|q: int|
                0 <= q < r.events@.len() ==> !((#[trigger] r.events@[q]) is Done),
            old(self).phase is AwaitingWrite && old(self).pending.unwrap().from_turn is None ==> ({
                &&& r.action is Stop
                &&& final(self).phase is Finished
                &&& final(self).transcript == old(self).transcript
                &&& final(self).buffer == old(self).buffer
                &&& final(self).terminal_emitted == (old(self).terminal_emitted || error is None)
                &&& evs_view(r.events@) == (if error is None && !old(self).terminal_emitted {
                    seq![
                        EventView::Done {
                            url: old(self).pending.unwrap().url@,
                            output: old(self).pending.unwrap().output_text@,
                        },
                    ]
                } else {
                    Seq::<EventView>::empty()
                })
            }),
            ({
                let pd = old(self).pending.unwrap();
                let tr = pd.from_turn.unwrap();
                let result = if error is None {
                    "saved: "@ + pd.url@
                } else {
                    "error writing file: "@ + error.unwrap()@
                };
                let head = (if error is None && !old(self).terminal_emitted {
                    seq![EventView::Done { url: pd.url@, output: pd.output_text@ }]
                } else {
                    Seq::<EventView>::empty()
                }) + seq![EventView::ToolResult { name: "done"@, preview: result }];
                let st0 = TurnState {
                    buf: old(self).buffer@,
                    results: res_views(tr.results@).push((pd.tool_id@, result)),
                    terminal: old(self).terminal_emitted || error is None,
                    stop: true,
                };
                let base = old(self).transcript@.len() as int;
                old(self).phase is AwaitingWrite && pd.from_turn is Some ==> match run_blocks(
                    tr.blocks@,
                    tr.next_index as int,
                    st0,
                    *tree,
                    *store,
                ) {
                    TurnEnd::Completed { st, evs: tevs } => {
                        &&& evs_view(r.events@) == head + tevs
                        &&& final(self).buffer@ == st.buf
                        &&& final(self).terminal_emitted == st.terminal
                        &&& r.action is Stop
                        &&& final(self).phase is Finished
                        &&& final(self).transcript@.len() == base + 2
                        &&& final(self).transcript@[base].role is Assistant
                        &&& final(self).transcript@[base].content@ == tr.blocks@
                        &&& final(self).transcript@[base + 1].role is User
                        &&& results_msg(final(self).transcript@[base + 1].content@, st.results)
                    },
                    TurnEnd::Suspended { st, at, evs: tevs } => {
                        let blk = tr.blocks@[at];
                        let title = blk->ToolUse_input->Done_0.title.unwrap()@;
                        &&& evs_view(r.events@) == head + tevs
                        &&& final(self).buffer@ == st.buf
                        &&& final(self).terminal_emitted == st.terminal
                        &&& r.action is Write
                        &&& r.action->Write_filename@ == spec_slugify(title) + ".md"@
                        &&& r.action->Write_content@ == st.buf
                        &&& final(self).phase is AwaitingWrite
                        &&& final(self).pending is Some
                        &&& final(self).pending.unwrap().tool_id@ == blk->ToolUse_id@
                        &&& final(self).pending.unwrap().url@ == old(self).base_path@
                            + "/ask/output/"@ + spec_slugify(title) + ".html"@
                        &&& final(self).pending.unwrap().output_text@ == lossy_utf8(st.buf)
                        &&& final(self).pending.unwrap().from_turn is Some
                        &&& final(self).pending.unwrap().from_turn.unwrap().blocks@ == tr.blocks@
                        &&& final(self).pending.unwrap().from_turn.unwrap().next_index == at + 1
                        &&& res_views(final(self).pending.unwrap().from_turn.unwrap().results@)
                            == st.results
                        &&& final(self).transcript == old(self).transcript
                    },
                }
            }),
    {
        let mut evs: Vec<SseEvent> = Vec::new();
        if !matches!(self.phase, Phase::AwaitingWrite) {
            return StepResult { events: evs, action: Action::Stop };
        }
        let pd = match self.pending.take() {
            Some(p) => p,
            None => {
                self.phase = Phase::Finished;
                proof {
                    assert(false);
                }
                return StepResult { events: evs, action: Action::Stop };
            },
        };
        let result: String = match &error {
            None => {
                self.emit_terminal(
                    &mut evs,
                    SseEvent::Done { url: pd.url.clone(), output: pd.output_text.clone() },
                );
                let mut s = String::from_str("saved: ");
                s.append(pd.url.as_str());
                s
            },
            Some(e) => {
                let mut s = String::from_str("error writing file: ");
                s.append(e.as_str());
                s
            },
        };
        match pd.from_turn {
            None => {
                self.phase = Phase::Finished;
                proof {
                    lemma_terminal_count_nonneg(evs@);
                    if error is None && !old(self).terminal_emitted {
                        assert(evs_view(evs@) =~= seq![
                            EventView::Done {
                                url: old(self).pending.unwrap().url@,
                                output: old(self).pending.unwrap().output_text@,
                            },
                        ]);
                    } else {
                        assert(evs_view(evs@) =~= Seq::<EventView>::empty());
                    }
                }
                StepResult { events: evs, action: Action::Stop }
            },
            Some(tr) => {
                let ghost evs_pre = evs@;
                let ghost resultv = result@;
                evs.push(
                    SseEvent::ToolResult {
                        name: String::from_str("done"),
                        output_preview: result.clone(),
                    },
                );
                proof {
                    lemma_terminal_count_push(evs_pre, evs@.last());
                    assert(evs@ =~= evs_pre.push(evs@.last()));
                }
                let mut rs = tr.results;
                rs.push((pd.tool_id, result));
                self.phase = Phase::Ready;
                let ghost evs1 = evs@;
                let ghost term_mid = self.terminal_emitted;
                let ghost pdv = old(self).pending.unwrap();
                let ghost st_mid = TurnState {
                    buf: self.buffer@,
                    results: res_views(rs@),
                    terminal: self.terminal_emitted,
                    stop: true,
                };
                proof {
                    assert(terminal_count(evs1) == terminal_count(evs_pre));
                    assert(emits_ok(old(self).terminal_emitted, evs1, term_mid));
                    assert(res_views(rs@) =~= res_views(pdv.from_turn.unwrap().results@).push(
                        (pdv.tool_id@, resultv),
                    ));
                    assert(term_mid == (old(self).terminal_emitted || error is None));
                    lemma_run_blocks_stop(
                        pdv.from_turn.unwrap().blocks@,
                        tr.next_index as int,
                        st_mid,
                        *tree,
                        *store,
                    );
                }
                let r = self.process_blocks(tr.blocks, tr.next_index, rs, true, evs, tree, store);
                proof {
                    assert(evs1.is_prefix_of(r.events@));
                    lemma_prefix_slice(evs1, r.events@);
                    lemma_terminal_count_nonneg(r.events@.skip(evs1.len() as int));
                    assert(r.events@ =~= evs1 + r.events@.skip(evs1.len() as int));
                    lemma_evs_view_concat(evs1, r.events@.skip(evs1.len() as int));
                    let head = (if error is None && !old(self).terminal_emitted {
                        seq![EventView::Done { url: pdv.url@, output: pdv.output_text@ }]
                    } else {
                        Seq::<EventView>::empty()
                    }) + seq![EventView::ToolResult { name: "done"@, preview: resultv }];
                    if error is None && !old(self).terminal_emitted {
                        assert(evs_view(evs1) =~= head);
                    } else {
                        assert(evs_view(evs1) =~= head);
                    }
                    assert(evs_view(r.events@) == head + evs_view(
                        r.events@.skip(evs1.len() as int),
                    ));
                }
                r
            },
        }
    }
}

proof fn lemma_terminal_count_push(s: Seq<SseEvent>, e: SseEvent)
    ensures
        terminal_count(s.push(e)) == terminal_count(s) + (if is_terminal(e) {
            1int
        } else {
            0int
        }),
{
    assert(s.push(e).drop_last() =~= s);
    assert(s.push(e).last() == e);
}

proof fn lemma_count_nonterminal(s: Seq<SseEvent>)
    requires
        forall|q: int| 0 <= q < s.len() ==> !is_terminal(#[trigger] s[q]),
    ensures
        terminal_count(s) == 0,
    decreases s.len(),
{
    if s.len() > 0 {
        lemma_count_nonterminal(s.drop_last());
    }
}

/// The slice a step added: its terminal count is the difference of the
/// whole and the prefix.
proof fn lemma_prefix_slice(a: Seq<SseEvent>, b: Seq<SseEvent>)
    requires
        a.is_prefix_of(b),
    ensures
        b =~= a + b.skip(a.len() as int),
        terminal_count(b.skip(a.len() as int)) == terminal_count(b) - terminal_count(a),
{
    assert(b =~= a + b.skip(a.len() as int));
    lemma_terminal_count_concat(a, b.skip(a.len() as int));
}

proof fn lemma_evs_view_concat(a: Seq<SseEvent>, b: Seq<SseEvent>)
    ensures
        evs_view(a + b) == evs_view(a) + evs_view(b),
{
    assert(evs_view(a + b) =~= evs_view(a) + evs_view(b));
}

proof fn lemma_nonterminal_slice(a: Seq<SseEvent>, b: Seq<SseEvent>)
    requires
        a.is_prefix_of(b),
        forall|q: int| a.len() <= q < b.len() ==> !is_terminal(#[trigger] b[q]),
    ensures
        terminal_count(b.skip(a.len() as int)) == 0,
        forall|q: int| a.len() <= q < b.len() ==> !((#[trigger] b[q]) is Done),
{
    lemma_prefix_slice(a, b);
    assert forall|q: int|
        0 <= q < b.skip(a.len() as int).len() implies !is_terminal(
        #[trigger] b.skip(a.len() as int)[q],
    ) by {
        assert(b.skip(a.len() as int)[q] == b[q + a.len()]);
    }
    lemma_count_nonterminal(b.skip(a.len() as int));
}


/// The built-in system prompt used when the configuration supplies none.
pub open spec fn spec_default_prompt() -> Seq<char> {
    "You are an IRC log search assistant. Search IRC logs using tools and compile relevant excerpts into an output document.\n\nWorkflow:\n1. Use display to tell the user what you're searching for\n2. Use search to find relevant messages (use n first to gauge volume, then C for context)\n3. Use copy to include relevant log lines in the output\n4. Use output to add titles, separators, and factual summaries\n5. Use done to save and finish -- you MUST always call done to produce a result\n\nRules:\n- Only retrieve and summarize IRC log content\n- Summaries must be grounded in the log data -- no speculation\n- If the query is unrelated to IRC log search, call abort immediately\n- NEVER respond with just text -- always produce an output document via done\n- Format all output text as markdown (headings, lists, code blocks for log excerpts)\n"@
}

fn default_system_prompt() -> (r: &'static str)
    ensures
        r@ == spec_default_prompt(),
{
    "You are an IRC log search assistant. Search IRC logs using tools and compile relevant excerpts into an output document.\n\nWorkflow:\n1. Use display to tell the user what you're searching for\n2. Use search to find relevant messages (use n first to gauge volume, then C for context)\n3. Use copy to include relevant log lines in the output\n4. Use output to add titles, separators, and factual summaries\n5. Use done to save and finish -- you MUST always call done to produce a result\n\nRules:\n- Only retrieve and summarize IRC log content\n- Summaries must be grounded in the log data -- no speculation\n- If the query is unrelated to IRC log search, call abort immediately\n- NEVER respond with just text -- always produce an output document via done\n- Format all output text as markdown (headings, lists, code blocks for log excerpts)\n"
}

/// The system prompt for a session: the configured or built-in base,
/// then the live channel listing.
pub fn build_system_prompt(custom: Option<&String>, channels: &ChannelNode) -> (r: String)
    ensures
        r@ == (match custom {
            Some(s) => s@,
            None => spec_default_prompt(),
        }) + "\nAvailable channels:\n"@ + crate::channels::spec_listing(*channels),
{
    let mut prompt = match custom {
        Some(s) => String::from_str(s.as_str()),
        None => String::from_str(default_system_prompt()),
    };
    prompt.append("\nAvailable channels:\n");
    crate::channels::collect_channels(channels, &mut prompt);
    prompt
}

} // verus!
