use vstd::prelude::*;

use crate::directory::{has_key, rule_in, PromptDirectory, PromptRule, RuleModel};

verus! {

/// An active thread of a guild and the container it was created under.
#[derive(Clone, Copy, Debug, PartialEq, Eq, Structural)]
pub struct ThreadInfo {
    pub id: u64,
    pub parent_id: u64,
}

/// What the relay knows of a message that just arrived.
#[derive(Clone, Copy, Debug, PartialEq, Eq, Structural)]
pub struct IncomingMessage {
    pub author_id: u64,
    pub channel_id: u64,
}

/// How a message is to be handled.
pub enum Route {
    /// Not a message the relay answers.
    Ignore,
    /// Answer it under this instruction.
    Instruction(String),
    /// Answer it under the latest message of this container.
    FetchPrompt(u64),
}

pub enum RouteModel {
    Ignore,
    Instruction(Seq<char>),
    FetchPrompt(u64),
}

impl View for Route {
    type V = RouteModel;

    open spec fn view(&self) -> RouteModel {
        match self {
            Route::Ignore => RouteModel::Ignore,
            Route::Instruction(t) => RouteModel::Instruction(t@),
            Route::FetchPrompt(c) => RouteModel::FetchPrompt(*c),
        }
    }
}

/// Whether `t` is the thread `channel_id` and its container has a rule in `dir`.
pub open spec fn is_managed(t: ThreadInfo, channel_id: u64, dir: Seq<(u64, RuleModel)>) -> bool {
    t.id == channel_id && has_key(dir, t.parent_id)
}

/// The container of the first of `threads` that is the managed thread `channel_id`.
pub open spec fn managed_container(
    threads: Seq<ThreadInfo>,
    channel_id: u64,
    dir: Seq<(u64, RuleModel)>,
) -> Option<u64>
    decreases threads.len(),
{
    if threads.len() == 0 {
        None
    } else if is_managed(threads[0], channel_id, dir) {
        Some(threads[0].parent_id)
    } else {
        managed_container(threads.drop_first(), channel_id, dir)
    }
}

/// The route of `msg`: the relay ignores its own messages and those outside
/// the managed threads, and answers the others under their container's rule.
pub open spec fn route_of(
    msg: IncomingMessage,
    relay_id: u64,
    threads: Seq<ThreadInfo>,
    dir: Seq<(u64, RuleModel)>,
) -> RouteModel {
    if msg.author_id == relay_id {
        RouteModel::Ignore
    } else {
        match managed_container(threads, msg.channel_id, dir) {
            None => RouteModel::Ignore,
            Some(c) => match rule_in(dir, c) {
                Some(RuleModel::Literal(t)) => RouteModel::Instruction(t),
                Some(RuleModel::DynamicReference(s)) => RouteModel::FetchPrompt(s),
                None => RouteModel::Ignore,
            },
        }
    }
}

/// Decides how `msg` is to be handled, given the active threads of its guild.
pub fn classify(
    msg: IncomingMessage,
    relay_id: u64,
    threads: &Vec<ThreadInfo>,
    dir: &PromptDirectory,
) -> (r: Route)
    requires
        dir.wf(),
    ensures
        r@ == route_of(msg, relay_id, threads@, dir@),
{
    if msg.author_id == relay_id {
        return Route::Ignore;
    }
    let mut i: usize = 0;
    assert(threads@.skip(0) =~= threads@);
    while i < threads.len()
        invariant
            i <= threads@.len(),
            msg.author_id != relay_id,
            dir.wf(),
            managed_container(threads@, msg.channel_id, dir@) == managed_container(
                threads@.skip(i as int),
                msg.channel_id,
                dir@,
            ),
        decreases threads.len() - i,
    {
        let t = threads[i];
        assert(threads@.skip(i as int).drop_first() =~= threads@.skip(i + 1));
        assert(threads@.skip(i as int)[0] == t);
        if t.id == msg.channel_id && dir.contains(t.parent_id) {
            assert(managed_container(threads@, msg.channel_id, dir@) == Some(t.parent_id));
            return match dir.get(t.parent_id) {
                Some(PromptRule::Literal(text)) => Route::Instruction(text.clone()),
                Some(PromptRule::DynamicReference(source)) => Route::FetchPrompt(*source),
                None => Route::Ignore,
            };
        }
        i = i + 1;
    }
    Route::Ignore
}

/// A message the relay wrote itself is never answered.
pub proof fn lemma_own_messages_ignored(
    msg: IncomingMessage,
    relay_id: u64,
    threads: Seq<ThreadInfo>,
    dir: Seq<(u64, RuleModel)>,
)
    requires
        msg.author_id == relay_id,
    ensures
        route_of(msg, relay_id, threads, dir) is Ignore,
{
}

/// A message in a thread whose container has no rule, or in no known thread,
/// is never answered.
pub proof fn lemma_unregistered_ignored(
    msg: IncomingMessage,
    relay_id: u64,
    threads: Seq<ThreadInfo>,
    dir: Seq<(u64, RuleModel)>,
)
    requires
        forall|i: int|
            0 <= i < threads.len() && (#[trigger] threads[i]).id == msg.channel_id ==> !has_key(
                dir,
                threads[i].parent_id,
            ),
    ensures
        route_of(msg, relay_id, threads, dir) is Ignore,
    decreases threads.len(),
{
    if threads.len() > 0 {
        let rest = threads.drop_first();
        assert forall|i: int|
            0 <= i < rest.len() && (#[trigger] rest[i]).id == msg.channel_id implies !has_key(
                dir,
                rest[i].parent_id,
            ) by {
            assert(rest[i] == threads[i + 1]);
        }
        lemma_unregistered_ignored(msg, relay_id, rest, dir);
        assert(managed_container(threads, msg.channel_id, dir) == managed_container(rest, msg.channel_id, dir));
    }
}

} // verus!
