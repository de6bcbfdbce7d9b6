//! A source of fresh declaration ids.
use vstd::prelude::*;

verus! {

/// Hands out the ids 1, 2, 3, ... in turn.
pub struct IdGenerator {
    index: usize,
}

impl View for IdGenerator {
    type V = nat;

    /// The last id handed out (0 before the first).
    closed spec fn view(&self) -> nat {
        self.index as nat
    }
}

impl IdGenerator {
    /// A generator that has handed out nothing yet.
    pub fn new() -> (r: IdGenerator)
        ensures
            r@ == 0,
    {
        IdGenerator { index: 0 }
    }

    /// The next id: one more than the last one handed out.
    pub fn next_id(&mut self) -> (r: usize)
        requires
            old(self)@ < usize::MAX,
        ensures
            final(self)@ == old(self)@ + 1,
            r == final(self)@,
    {
        self.index = self.index + 1;
        self.index
    }

    /// The last id handed out.
    pub fn last_id(&self) -> (r: usize)
        ensures
            r == self@,
    {
        self.index
    }
}

} // verus!
