use vstd::prelude::*;

verus! {

/// Who a conversation entry speaks for.
#[derive(Clone, Copy, Debug, PartialEq, Eq, Structural)]
pub enum Role {
    System,
    User,
}

/// One entry of the conversation handed to the completion service.
pub struct ConversationEntry {
    pub role: Role,
    pub text: String,
}

/// The mathematical value of a [`ConversationEntry`].
pub struct EntryModel {
    pub role: Role,
    pub text: Seq<char>,
}

impl View for ConversationEntry {
    type V = EntryModel;

    open spec fn view(&self) -> EntryModel {
        EntryModel { role: self.role, text: self.text@ }
    }
}

/// A message of a thread's history as the platform reports it.
pub struct HistoryMessage {
    pub author_id: u64,
    pub timestamp: i64,
    pub content: String,
}

/// The mathematical value of a [`HistoryMessage`].
pub struct MessageModel {
    pub author_id: u64,
    pub timestamp: i64,
    pub text: Seq<char>,
}

impl View for HistoryMessage {
    type V = MessageModel;

    open spec fn view(&self) -> MessageModel {
        MessageModel { author_id: self.author_id, timestamp: self.timestamp, text: self.content@ }
    }
}

/// The values of a sequence of conversation entries.
pub open spec fn entries_view(v: Seq<ConversationEntry>) -> Seq<EntryModel> {
    v.map_values(|e: ConversationEntry| e@)
}

/// The values of a sequence of history messages.
pub open spec fn history_view(v: Seq<HistoryMessage>) -> Seq<MessageModel> {
    v.map_values(|m: HistoryMessage| m@)
}

/// The relay's own messages count as prior system context; everyone else is a user.
pub open spec fn role_of(author_id: u64, relay_id: u64) -> Role {
    if author_id == relay_id {
        Role::System
    } else {
        Role::User
    }
}

/// How many of the newest `available` messages a history limit of `limit` keeps.
pub open spec fn kept(available: nat, limit: nat) -> nat {
    if limit < available {
        limit
    } else {
        available
    }
}

/// Which message of the newest-first `history` entry `i` (from 1) of a context
/// holding `n` messages comes from.
pub open spec fn source_index(n: int, i: int) -> int {
    n - i
}

/// The conversation sent for a thread: the instruction as a system entry, then
/// the newest `limit` messages of `history` (given newest first) oldest first.
pub open spec fn context_model(
    instruction: Seq<char>,
    history: Seq<MessageModel>,
    limit: nat,
    relay_id: u64,
) -> Seq<EntryModel> {
    let n = kept(history.len(), limit);
    seq![EntryModel { role: Role::System, text: instruction }] + Seq::new(
        n,
        |i: int|
            EntryModel {
                role: role_of(history[source_index(n as int, i + 1)].author_id, relay_id),
                text: history[source_index(n as int, i + 1)].text,
            },
    )
}

/// The role of a message written by `user_id`.
pub fn message_role(user_id: u64, relay_id: u64) -> (r: Role)
    ensures
        r == role_of(user_id, relay_id),
{
    if user_id == relay_id {
        Role::System
    } else {
        Role::User
    }
}

/// Builds the conversation for the completion service from the instruction and
/// the thread's history, given newest first as the platform returns it.
pub fn assemble_context(
    instruction: String,
    history: &Vec<HistoryMessage>,
    limit: usize,
    relay_id: u64,
) -> (r: Vec<ConversationEntry>)
    ensures
        entries_view(r@) == context_model(instruction@, history_view(history@), limit as nat, relay_id),
{
    let n: usize = if limit < history.len() {
        limit
    } else {
        history.len()
    };
    let ghost hv = history_view(history@);
    let ghost target = context_model(instruction@, hv, limit as nat, relay_id);
    let mut out: Vec<ConversationEntry> = Vec::new();
    out.push(ConversationEntry { role: Role::System, text: instruction });
    let mut i: usize = 0;
    while i < n
        invariant
            n == kept(history@.len(), limit as nat),
            n <= history@.len(),
            i <= n,
            hv == history_view(history@),
            target == context_model(instruction@, hv, limit as nat, relay_id),
            out@.len() == i + 1,
            forall|j: int| 0 <= j <= i ==> (#[trigger] out@[j])@ == target[j],
        decreases n - i,
    {
        let m = &history[n - 1 - i];
        let entry = ConversationEntry { role: message_role(m.author_id, relay_id), text: m.content.clone() };
        out.push(entry);
        i = i + 1;
    }
    assert(entries_view(out@) =~= target);
    out
}

/// Entry 0 of every assembled conversation is the system instruction.
pub proof fn lemma_context_starts_with_instruction(
    instruction: Seq<char>,
    history: Seq<MessageModel>,
    limit: nat,
    relay_id: u64,
)
    ensures
        context_model(instruction, history, limit, relay_id).len() == kept(history.len(), limit) + 1,
        context_model(instruction, history, limit, relay_id)[0] == (EntryModel {
            role: Role::System,
            text: instruction,
        }),
{
}

/// A history whose messages are given newest first.
pub open spec fn newest_first(history: Seq<MessageModel>) -> bool {
    forall|a: int, b: int|
        0 <= a < b < history.len() ==> (#[trigger] history[a]).timestamp >= (#[trigger] history[b]).timestamp
}

/// When the history is given newest first, the entries after the instruction
/// come from messages in non-decreasing timestamp order.
pub proof fn lemma_context_chronological(history: Seq<MessageModel>, limit: nat, i: int, j: int)
    requires
        newest_first(history),
        1 <= i < j <= kept(history.len(), limit),
    ensures
        history[source_index(kept(history.len(), limit) as int, i)].timestamp
            <= history[source_index(kept(history.len(), limit) as int, j)].timestamp,
{
    let n = kept(history.len(), limit) as int;
    assert(0 <= source_index(n, j) < source_index(n, i) < history.len());
}

} // verus!
