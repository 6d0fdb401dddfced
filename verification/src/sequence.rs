//! The allocator of message ids.

use vstd::prelude::*;

verus! {

/// Hands out message ids that are unique and strictly increasing.
///
/// The counter's view is the id it issued last, `0` before the first.
#[derive(Debug)]
pub struct MessageIdCounter {
    last: usize,
}

impl View for MessageIdCounter {
    type V = nat;

    closed spec fn view(&self) -> nat {
        self.last as nat
    }
}

impl MessageIdCounter {
    /// A counter that has issued nothing yet: its first id will be `1`.
    pub fn new() -> (counter: Self)
        ensures
            counter@ == 0,
    {
        MessageIdCounter { last: 0 }
    }

    /// The last id issued is a `usize`.
    pub proof fn lemma_last_fits(self)
        ensures
            self@ <= usize::MAX,
    {
    }

    /// Whether `count` further ids can be issued without leaving `usize`.
    pub fn has_room(&self, count: usize) -> (room: bool)
        ensures
            room == (self@ + count <= usize::MAX),
    {
        count <= usize::MAX - self.last
    }

    /// Issues the next id: one more than the last.
    pub fn next_msg_id(&mut self) -> (id: usize)
        requires
            old(self)@ < usize::MAX,
        ensures
            id == old(self)@ + 1,
            final(self)@ == id,
    {
        self.last = self.last + 1;
        self.last
    }
}

} // verus!
