use vstd::prelude::*;

use crate::chunker::{chunk_reply, chunks_of, strings_view};
use crate::classify::{classify, route_of, IncomingMessage, Route, RouteModel, ThreadInfo};
use crate::completion::{last_choice_text, reply_text_of};
use crate::context::{
    assemble_context, context_model, entries_view, history_view, ConversationEntry, EntryModel,
    HistoryMessage, MessageModel,
};
use crate::directory::PromptDirectory;

verus! {

/// Why the handling of a message stopped without a complete reply.
#[derive(Clone, Copy, Debug, PartialEq, Eq, Structural)]
pub enum RelayError {
    /// The container that supplies the instruction is empty or could not be read.
    PromptResolutionFailure,
    /// The thread's history could not be read.
    HistoryFetchFailure,
    /// The completion service failed.
    CompletionServiceFailure,
    /// A chunk of the reply could not be sent; the rest were not tried.
    DeliveryFailure,
}

/// The settings the relay runs with.
pub struct RelayConfig {
    /// The relay's own user id.
    pub relay_id: u64,
    /// How many of a thread's newest messages make up the conversation.
    pub history_limit: usize,
    /// The token budget of each completion.
    pub max_tokens: u16,
    /// The model asked for each completion.
    pub model: String,
    /// The longest message, in characters, that the platform accepts.
    pub max_chunk: usize,
}

pub struct ConfigModel {
    pub relay_id: u64,
    pub history_limit: usize,
    pub max_tokens: u16,
    pub model: Seq<char>,
    pub max_chunk: usize,
}

impl View for RelayConfig {
    type V = ConfigModel;

    open spec fn view(&self) -> ConfigModel {
        ConfigModel {
            relay_id: self.relay_id,
            history_limit: self.history_limit,
            max_tokens: self.max_tokens,
            model: self.model@,
            max_chunk: self.max_chunk,
        }
    }
}

/// What is sent to the completion service for one message.
pub struct CompletionRequest {
    pub model: String,
    pub max_tokens: u16,
    pub messages: Vec<ConversationEntry>,
}

pub struct RequestModel {
    pub model: Seq<char>,
    pub max_tokens: u16,
    pub messages: Seq<EntryModel>,
}

impl View for CompletionRequest {
    type V = RequestModel;

    open spec fn view(&self) -> RequestModel {
        RequestModel { model: self.model@, max_tokens: self.max_tokens, messages: entries_view(self.messages@) }
    }
}

/// What the platform and the completion service answered.
pub enum Event {
    /// The newest messages of the prompt container, newest first.
    PromptFetched(Vec<String>),
    PromptFetchFailed,
    /// The newest messages of the thread, newest first.
    HistoryFetched(Vec<HistoryMessage>),
    HistoryFetchFailed,
    /// The texts of the choices the completion service returned.
    CompletionReturned(Vec<String>),
    CompletionFailed,
    ChunkSent,
    ChunkFailed,
}

pub enum EventModel {
    PromptFetched(Seq<Seq<char>>),
    PromptFetchFailed,
    HistoryFetched(Seq<MessageModel>),
    HistoryFetchFailed,
    CompletionReturned(Seq<Seq<char>>),
    CompletionFailed,
    ChunkSent,
    ChunkFailed,
}

impl View for Event {
    type V = EventModel;

    open spec fn view(&self) -> EventModel {
        match self {
            Event::PromptFetched(m) => EventModel::PromptFetched(strings_view(m@)),
            Event::PromptFetchFailed => EventModel::PromptFetchFailed,
            Event::HistoryFetched(h) => EventModel::HistoryFetched(history_view(h@)),
            Event::HistoryFetchFailed => EventModel::HistoryFetchFailed,
            Event::CompletionReturned(c) => EventModel::CompletionReturned(strings_view(c@)),
            Event::CompletionFailed => EventModel::CompletionFailed,
            Event::ChunkSent => EventModel::ChunkSent,
            Event::ChunkFailed => EventModel::ChunkFailed,
        }
    }
}

/// What the caller is to do next.
pub enum Action {
    /// Nothing more: the message was not for the relay, or its reply is delivered.
    Finish,
    /// Nothing new: the event did not answer the pending request.
    Wait,
    /// Read the newest message of this container.
    FetchPrompt { source: u64 },
    /// Show the typing indicator in the thread, then read its newest `limit` messages.
    FetchHistory { thread: u64, limit: usize },
    /// Send this request to the completion service.
    RequestCompletion(CompletionRequest),
    /// Send this text to the thread as one message.
    SendChunk { thread: u64, text: String },
    /// Stop handling the message, and log why.
    Abort(RelayError),
}

pub enum ActionModel {
    Finish,
    Wait,
    FetchPrompt { source: u64 },
    FetchHistory { thread: u64, limit: usize },
    RequestCompletion(RequestModel),
    SendChunk { thread: u64, text: Seq<char> },
    Abort(RelayError),
}

impl View for Action {
    type V = ActionModel;

    open spec fn view(&self) -> ActionModel {
        match self {
            Action::Finish => ActionModel::Finish,
            Action::Wait => ActionModel::Wait,
            Action::FetchPrompt { source } => ActionModel::FetchPrompt { source: *source },
            Action::FetchHistory { thread, limit } => ActionModel::FetchHistory { thread: *thread, limit: *limit },
            Action::RequestCompletion(r) => ActionModel::RequestCompletion(r@),
            Action::SendChunk { thread, text } => ActionModel::SendChunk { thread: *thread, text: text@ },
            Action::Abort(e) => ActionModel::Abort(*e),
        }
    }
}

/// Where the handling of one message stands.
#[derive(Clone, Copy, Debug, PartialEq, Eq, Structural)]
pub enum Phase {
    AwaitingPrompt,
    AwaitingHistory,
    AwaitingCompletion,
    Delivering,
    Done,
    Failed(RelayError),
}

/// A phase after which nothing more is done.
pub open spec fn is_terminal(p: Phase) -> bool {
    p is Done || p is Failed
}

/// The handling of one incoming message.
pub struct Handling {
    phase: Phase,
    thread: u64,
    instruction: String,
    chunks: Vec<String>,
    sent: usize,
}

pub struct HandlingModel {
    pub phase: Phase,
    pub thread: u64,
    pub instruction: Seq<char>,
    pub chunks: Seq<Seq<char>>,
    pub sent: nat,
}

impl View for Handling {
    type V = HandlingModel;

    closed spec fn view(&self) -> HandlingModel {
        HandlingModel {
            phase: self.phase,
            thread: self.thread,
            instruction: self.instruction@,
            chunks: strings_view(self.chunks@),
            sent: self.sent as nat,
        }
    }
}

/// A handling that delivers chunk `sent` next, while it is delivering.
pub open spec fn model_wf(h: HandlingModel) -> bool {
    h.phase is Delivering ==> h.sent < h.chunks.len()
}

/// The request for the thread's history, with the typing indicator.
pub open spec fn fetch_history(h: HandlingModel, c: ConfigModel) -> ActionModel {
    ActionModel::FetchHistory { thread: h.thread, limit: c.history_limit }
}

/// Stops the handling with `e`.
pub open spec fn fail(h: HandlingModel, e: RelayError) -> (HandlingModel, ActionModel) {
    (HandlingModel { phase: Phase::Failed(e), ..h }, ActionModel::Abort(e))
}

/// The next chunk to send, or the end once every chunk is sent.
pub open spec fn deliver_from(h: HandlingModel, chunks: Seq<Seq<char>>, sent: nat) -> (HandlingModel, ActionModel) {
    if sent < chunks.len() {
        (
            HandlingModel { phase: Phase::Delivering, chunks, sent, ..h },
            ActionModel::SendChunk { thread: h.thread, text: chunks[sent as int] },
        )
    } else {
        (HandlingModel { phase: Phase::Done, chunks, sent, ..h }, ActionModel::Finish)
    }
}

/// How a handling answers an event: its next state and what the caller is to do.
pub open spec fn step(h: HandlingModel, e: EventModel, c: ConfigModel) -> (HandlingModel, ActionModel) {
    match (h.phase, e) {
        (Phase::Done, _) => (h, ActionModel::Finish),
        (Phase::Failed(_), _) => (h, ActionModel::Finish),
        (Phase::AwaitingPrompt, EventModel::PromptFetched(m)) => if m.len() == 0 {
            fail(h, RelayError::PromptResolutionFailure)
        } else {
            let g = HandlingModel { phase: Phase::AwaitingHistory, instruction: m[0], ..h };
            (g, fetch_history(g, c))
        },
        (Phase::AwaitingPrompt, EventModel::PromptFetchFailed) => fail(h, RelayError::PromptResolutionFailure),
        (Phase::AwaitingHistory, EventModel::HistoryFetched(hist)) => (
            HandlingModel { phase: Phase::AwaitingCompletion, ..h },
            ActionModel::RequestCompletion(
                RequestModel {
                    model: c.model,
                    max_tokens: c.max_tokens,
                    messages: context_model(h.instruction, hist, c.history_limit as nat, c.relay_id),
                },
            ),
        ),
        (Phase::AwaitingHistory, EventModel::HistoryFetchFailed) => fail(h, RelayError::HistoryFetchFailure),
        (Phase::AwaitingCompletion, EventModel::CompletionReturned(choices)) => deliver_from(
            h,
            chunks_of(reply_text_of(choices), c.max_chunk as nat),
            0,
        ),
        (Phase::AwaitingCompletion, EventModel::CompletionFailed) => fail(h, RelayError::CompletionServiceFailure),
        (Phase::Delivering, EventModel::ChunkSent) => deliver_from(h, h.chunks, h.sent + 1),
        (Phase::Delivering, EventModel::ChunkFailed) => fail(h, RelayError::DeliveryFailure),
        _ => (h, ActionModel::Wait),
    }
}

/// How a handling starts for a message with the given route.
pub open spec fn start_model(thread: u64, route: RouteModel, c: ConfigModel) -> (HandlingModel, ActionModel) {
    let h = HandlingModel {
        phase: Phase::Done,
        thread,
        instruction: Seq::empty(),
        chunks: Seq::empty(),
        sent: 0,
    };
    match route {
        RouteModel::Ignore => (h, ActionModel::Finish),
        RouteModel::Instruction(t) => {
            let g = HandlingModel { phase: Phase::AwaitingHistory, instruction: t, ..h };
            (g, fetch_history(g, c))
        },
        RouteModel::FetchPrompt(s) => (
            HandlingModel { phase: Phase::AwaitingPrompt, ..h },
            ActionModel::FetchPrompt { source: s },
        ),
    }
}

/// The actions a handling asks for as it answers `events` in turn.
pub open spec fn run(h: HandlingModel, events: Seq<EventModel>, c: ConfigModel) -> Seq<ActionModel>
    decreases events.len(),
{
    if events.len() == 0 {
        Seq::empty()
    } else {
        let (g, a) = step(h, events[0], c);
        seq![a] + run(g, events.drop_first(), c)
    }
}

impl Handling {
    /// The handling is in a consistent state.
    pub closed spec fn wf(&self) -> bool {
        model_wf(self@)
    }

    /// Starts handling `msg`, given the active threads of its guild.
    pub fn start(
        msg: IncomingMessage,
        threads: &Vec<ThreadInfo>,
        dir: &PromptDirectory,
        config: &RelayConfig,
    ) -> (r: (Handling, Action))
        requires
            dir.wf(),
        ensures
            r.0.wf(),
            (r.0@, r.1@) == start_model(msg.channel_id, route_of(msg, config.relay_id, threads@, dir@), config@),
    {
        let route = classify(msg, config.relay_id, threads, dir);
        let mut h = Handling {
            phase: Phase::Done,
            thread: msg.channel_id,
            instruction: String::new(),
            chunks: Vec::new(),
            sent: 0,
        };
        proof {
            assert(h@.chunks =~= Seq::<Seq<char>>::empty());
        }
        match route {
            Route::Ignore => (h, Action::Finish),
            Route::Instruction(t) => {
                h.phase = Phase::AwaitingHistory;
                h.instruction = t;
                (h, Action::FetchHistory { thread: msg.channel_id, limit: config.history_limit })
            },
            Route::FetchPrompt(s) => {
                h.phase = Phase::AwaitingPrompt;
                (h, Action::FetchPrompt { source: s })
            },
        }
    }

    /// Where the handling stands.
    pub fn phase(&self) -> (r: Phase)
        ensures
            r == self@.phase,
    {
        self.phase
    }

    fn deliver_next(&mut self) -> (a: Action)
        requires
            old(self).sent <= old(self).chunks@.len(),
        ensures
            (final(self)@, a@) == deliver_from(old(self)@, old(self)@.chunks, old(self)@.sent),
            final(self).wf(),
    {
        if self.sent < self.chunks.len() {
            self.phase = Phase::Delivering;
            let text = self.chunks[self.sent].clone();
            Action::SendChunk { thread: self.thread, text }
        } else {
            self.phase = Phase::Done;
            Action::Finish
        }
    }

    /// Answers `event`: moves the handling on and says what to do next.
    pub fn handle(&mut self, event: Event, config: &RelayConfig) -> (a: Action)
        requires
            old(self).wf(),
            config.max_chunk > 0,
        ensures
            final(self).wf(),
            (final(self)@, a@) == step(old(self)@, event@, config@),
    {
        match (self.phase, event) {
            (Phase::Done, _) => Action::Finish,
            (Phase::Failed(_), _) => Action::Finish,
            (Phase::AwaitingPrompt, Event::PromptFetched(m)) => {
                if m.len() == 0 {
                    self.phase = Phase::Failed(RelayError::PromptResolutionFailure);
                    Action::Abort(RelayError::PromptResolutionFailure)
                } else {
                    self.instruction = m[0].clone();
                    self.phase = Phase::AwaitingHistory;
                    Action::FetchHistory { thread: self.thread, limit: config.history_limit }
                }
            },
            (Phase::AwaitingPrompt, Event::PromptFetchFailed) => {
                self.phase = Phase::Failed(RelayError::PromptResolutionFailure);
                Action::Abort(RelayError::PromptResolutionFailure)
            },
            (Phase::AwaitingHistory, Event::HistoryFetched(hist)) => {
                let messages = assemble_context(
                    self.instruction.clone(),
                    &hist,
                    config.history_limit,
                    config.relay_id,
                );
                self.phase = Phase::AwaitingCompletion;
                Action::RequestCompletion(
                    CompletionRequest { model: config.model.clone(), max_tokens: config.max_tokens, messages },
                )
            },
            (Phase::AwaitingHistory, Event::HistoryFetchFailed) => {
                self.phase = Phase::Failed(RelayError::HistoryFetchFailure);
                Action::Abort(RelayError::HistoryFetchFailure)
            },
            (Phase::AwaitingCompletion, Event::CompletionReturned(choices)) => {
                let reply = last_choice_text(&choices);
                self.chunks = chunk_reply(reply.as_str(), config.max_chunk);
                self.sent = 0;
                self.deliver_next()
            },
            (Phase::AwaitingCompletion, Event::CompletionFailed) => {
                self.phase = Phase::Failed(RelayError::CompletionServiceFailure);
                Action::Abort(RelayError::CompletionServiceFailure)
            },
            (Phase::Delivering, Event::ChunkSent) => {
                assert(self.sent < self.chunks.len());
                self.sent = self.sent + 1;
                self.deliver_next()
            },
            (Phase::Delivering, Event::ChunkFailed) => {
                self.phase = Phase::Failed(RelayError::DeliveryFailure);
                Action::Abort(RelayError::DeliveryFailure)
            },
            _ => Action::Wait,
        }
    }
}

/// Once finished or failed, a handling asks for nothing more, whatever it is told.
pub proof fn lemma_terminal_is_silent(h: HandlingModel, events: Seq<EventModel>, c: ConfigModel)
    requires
        is_terminal(h.phase),
    ensures
        run(h, events, c).len() == events.len(),
        forall|k: int| 0 <= k < events.len() ==> (#[trigger] run(h, events, c)[k]) is Finish,
    decreases events.len(),
{
    if events.len() > 0 {
        lemma_terminal_is_silent(h, events.drop_first(), c);
        let rs = run(h, events, c);
        assert forall|k: int| 0 <= k < events.len() implies (#[trigger] rs[k]) is Finish by {
            if k > 0 {
                assert(rs[k] == run(h, events.drop_first(), c)[k - 1]);
            }
        }
    }
}

/// A message the relay will not answer is handled without any request at all:
/// no prompt or history read, no completion request, no delivery.
pub proof fn lemma_ignored_message_is_silent(
    msg: IncomingMessage,
    threads: Seq<ThreadInfo>,
    dir: Seq<(u64, crate::directory::RuleModel)>,
    events: Seq<EventModel>,
    c: ConfigModel,
)
    requires
        route_of(msg, c.relay_id, threads, dir) is Ignore,
    ensures
        ({
            let (h, a) = start_model(msg.channel_id, route_of(msg, c.relay_id, threads, dir), c);
            &&& a is Finish
            &&& forall|k: int| 0 <= k < events.len() ==> (#[trigger] run(h, events, c)[k]) is Finish
        }),
{
    let (h, a) = start_model(msg.channel_id, route_of(msg, c.relay_id, threads, dir), c);
    lemma_terminal_is_silent(h, events, c);
}

/// The relay's own messages never lead to a completion request or a delivery.
pub proof fn lemma_own_message_is_silent(
    msg: IncomingMessage,
    threads: Seq<ThreadInfo>,
    dir: Seq<(u64, crate::directory::RuleModel)>,
    events: Seq<EventModel>,
    c: ConfigModel,
)
    requires
        msg.author_id == c.relay_id,
    ensures
        ({
            let (h, a) = start_model(msg.channel_id, route_of(msg, c.relay_id, threads, dir), c);
            &&& a is Finish
            &&& forall|k: int| 0 <= k < events.len() ==> (#[trigger] run(h, events, c)[k]) is Finish
        }),
{
    crate::classify::lemma_own_messages_ignored(msg, c.relay_id, threads, dir);
    lemma_ignored_message_is_silent(msg, threads, dir, events, c);
}

/// A message in a thread whose container has no rule never leads to any request.
pub proof fn lemma_unregistered_thread_is_silent(
    msg: IncomingMessage,
    threads: Seq<ThreadInfo>,
    dir: Seq<(u64, crate::directory::RuleModel)>,
    events: Seq<EventModel>,
    c: ConfigModel,
)
    requires
        forall|i: int|
            0 <= i < threads.len() && (#[trigger] threads[i]).id == msg.channel_id
                ==> !crate::directory::has_key(dir, threads[i].parent_id),
    ensures
        ({
            let (h, a) = start_model(msg.channel_id, route_of(msg, c.relay_id, threads, dir), c);
            &&& a is Finish
            &&& forall|k: int| 0 <= k < events.len() ==> (#[trigger] run(h, events, c)[k]) is Finish
        }),
{
    crate::classify::lemma_unregistered_ignored(msg, c.relay_id, threads, dir);
    lemma_ignored_message_is_silent(msg, threads, dir, events, c);
}

/// When the container that supplies the instruction holds no message, the
/// handling fails with a prompt resolution failure and asks for nothing more:
/// no completion request and no delivery.
pub proof fn lemma_empty_prompt_source_fails(
    h: HandlingModel,
    events: Seq<EventModel>,
    c: ConfigModel,
)
    requires
        h.phase is AwaitingPrompt,
        events.len() > 0,
        events[0] == EventModel::PromptFetched(Seq::empty()),
    ensures
        run(h, events, c)[0] == ActionModel::Abort(RelayError::PromptResolutionFailure),
        forall|k: int| 1 <= k < events.len() ==> (#[trigger] run(h, events, c)[k]) is Finish,
{
    let (g, a) = step(h, events[0], c);
    lemma_terminal_is_silent(g, events.drop_first(), c);
    let rs = run(h, events, c);
    assert forall|k: int| 1 <= k < events.len() implies (#[trigger] rs[k]) is Finish by {
        assert(rs[k] == run(g, events.drop_first(), c)[k - 1]);
    }
}

proof fn lemma_run_len(h: HandlingModel, events: Seq<EventModel>, c: ConfigModel)
    ensures
        run(h, events, c).len() == events.len(),
    decreases events.len(),
{
    if events.len() > 0 {
        let (g, a) = step(h, events[0], c);
        lemma_run_len(g, events.drop_first(), c);
    }
}

/// `n` acknowledgements of sent chunks.
pub open spec fn sends(n: nat) -> Seq<EventModel> {
    Seq::new(n, |i: int| EventModel::ChunkSent)
}

/// While delivering, each acknowledged chunk is followed by the next one, and
/// the last by the end of the handling.
proof fn lemma_delivery_continues(h: HandlingModel, chunks: Seq<Seq<char>>, i: nat, m: nat, c: ConfigModel)
    requires
        i < chunks.len(),
    ensures
        forall|j: int|
            0 <= j < m ==> #[trigger] run(deliver_from(h, chunks, i).0, sends(m), c)[j] == if i + 1 + j
                < chunks.len() {
                ActionModel::SendChunk { thread: h.thread, text: chunks[i + 1 + j] }
            } else {
                ActionModel::Finish
            },
    decreases m,
{
    if m > 0 {
        let g = deliver_from(h, chunks, i).0;
        let (g2, a) = step(g, EventModel::ChunkSent, c);
        assert(sends(m)[0] == EventModel::ChunkSent);
        assert(sends(m).drop_first() =~= sends((m - 1) as nat));
        let rs = run(g, sends(m), c);
        lemma_run_len(g2, sends((m - 1) as nat), c);
        assert(rs == seq![a] + run(g2, sends((m - 1) as nat), c));
        if i + 1 < chunks.len() {
            assert(g2 == deliver_from(h, chunks, i + 1).0);
            lemma_delivery_continues(h, chunks, i + 1, (m - 1) as nat, c);
            assert forall|j: int| 0 <= j < m implies #[trigger] rs[j] == if i + 1 + j < chunks.len() {
                ActionModel::SendChunk { thread: h.thread, text: chunks[i + 1 + j] }
            } else {
                ActionModel::Finish
            } by {
                if j > 0 {
                    assert(rs[j] == run(g2, sends((m - 1) as nat), c)[j - 1]);
                }
            }
        } else {
            lemma_terminal_is_silent(g2, sends((m - 1) as nat), c);
            assert forall|j: int| 0 <= j < m implies #[trigger] rs[j] == ActionModel::Finish by {
                if j > 0 {
                    assert(rs[j] == run(g2, sends((m - 1) as nat), c)[j - 1]);
                }
            }
        }
    }
}

/// Once the reply has come, its chunks are sent to the thread one at a time and
/// in order: chunk `j` is asked for only after chunk `j - 1` was sent, and the
/// handling ends right after the last one.
pub proof fn lemma_chunks_delivered_in_order(h: HandlingModel, choices: Seq<Seq<char>>, m: nat, c: ConfigModel)
    requires
        h.phase is AwaitingCompletion,
    ensures
        ({
            let chunks = chunks_of(reply_text_of(choices), c.max_chunk as nat);
            let rs = run(h, seq![EventModel::CompletionReturned(choices)] + sends(m), c);
            forall|j: int|
                0 <= j <= m ==> #[trigger] rs[j] == if j < chunks.len() {
                    ActionModel::SendChunk { thread: h.thread, text: chunks[j] }
                } else {
                    ActionModel::Finish
                }
        }),
{
    let chunks = chunks_of(reply_text_of(choices), c.max_chunk as nat);
    let events = seq![EventModel::CompletionReturned(choices)] + sends(m);
    let (g, a) = step(h, events[0], c);
    assert(events.drop_first() =~= sends(m));
    let rs = run(h, events, c);
    lemma_run_len(g, sends(m), c);
    assert(rs == seq![a] + run(g, sends(m), c));
    if chunks.len() > 0 {
        lemma_delivery_continues(h, chunks, 0, m, c);
        assert forall|j: int| 0 <= j <= m implies #[trigger] rs[j] == if j < chunks.len() {
            ActionModel::SendChunk { thread: h.thread, text: chunks[j] }
        } else {
            ActionModel::Finish
        } by {
            if j > 0 {
                assert(rs[j] == run(g, sends(m), c)[j - 1]);
            }
        }
    } else {
        lemma_terminal_is_silent(g, sends(m), c);
        assert forall|j: int| 0 <= j <= m implies #[trigger] rs[j] == ActionModel::Finish by {
            if j > 0 {
                assert(rs[j] == run(g, sends(m), c)[j - 1]);
            }
        }
    }
}

} // verus!
