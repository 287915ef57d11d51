use vstd::prelude::*;

use std::collections::HashSet;

verus! {

broadcast use vstd::std_specs::hash::group_hash_axioms;

/// The threads with a message being answered right now, so that two messages
/// of one thread are not answered at the same time.
pub struct InFlight {
    busy: HashSet<u64>,
}

impl View for InFlight {
    type V = Set<u64>;

    closed spec fn view(&self) -> Set<u64> {
        self.busy@
    }
}

impl InFlight {
    /// No thread is busy.
    pub fn new() -> (r: InFlight)
        ensures
            r@ == Set::<u64>::empty(),
    {
        InFlight { busy: HashSet::new() }
    }

    /// Marks `thread` busy. Returns false, and changes nothing, when it already was.
    pub fn try_begin(&mut self, thread: u64) -> (r: bool)
        ensures
            r == !old(self)@.contains(thread),
            final(self)@ == old(self)@.insert(thread),
    {
        self.busy.insert(thread)
    }

    /// Marks `thread` free again.
    pub fn finish(&mut self, thread: u64)
        ensures
            final(self)@ == old(self)@.remove(thread),
    {
        self.busy.remove(&thread);
    }

    /// Whether a message of `thread` is being answered.
    pub fn is_busy(&self, thread: u64) -> (r: bool)
        ensures
            r == self@.contains(thread),
    {
        self.busy.contains(&thread)
    }
}

} // verus!
