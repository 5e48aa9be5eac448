//! One-shot release signals that hold back a client's next buffer commit.
//!
//! Each signal starts pending and can only move to released; releasing twice is harmless.
use vstd::prelude::*;

verus! {

/// Every release signal handed out so far, indexed by its id.
#[derive(Debug)]
pub struct BlockerSignals {
    released: Vec<bool>,
}

impl View for BlockerSignals {
    type V = Seq<bool>;

    /// `true` at an id when that signal has been released.
    closed spec fn view(&self) -> Seq<bool> {
        self.released@
    }
}

impl BlockerSignals {
    pub fn new() -> (r: BlockerSignals)
        ensures
            r@ == Seq::<bool>::empty(),
    {
        BlockerSignals { released: Vec::new() }
    }

    pub fn len(&self) -> (r: usize)
        ensures
            r == self@.len(),
    {
        self.released.len()
    }

    /// Hands out a fresh, pending signal.
    pub fn create(&mut self) -> (id: usize)
        ensures
            id == old(self)@.len(),
            final(self)@ == old(self)@.push(false),
    {
        self.released.push(false);
        self.released.len() - 1
    }

    /// Releases the signal `id`; a released signal stays released.
    pub fn release(&mut self, id: usize)
        requires
            id < old(self)@.len(),
        ensures
            final(self)@ == old(self)@.update(id as int, true),
    {
        assert(self.released@.len() == self@.len());
        self.released.set(id, true);
    }

    /// Whether the signal `id` has been released; an unknown id reads as released, so that
    /// nothing can be held back by it.
    pub fn is_released(&self, id: usize) -> (r: bool)
        ensures
            r == (id >= self@.len() || self@[id as int]),
    {
        if id < self.released.len() {
            self.released[id]
        } else {
            true
        }
    }
}

/// Releasing never makes a released signal pending again, whichever signal is released.
pub proof fn release_is_monotonic(before: Seq<bool>, id: int, other: int)
    requires
        0 <= id < before.len(),
        0 <= other < before.len(),
        before[other],
    ensures
        before.update(id, true)[other],
        before.update(id, true)[id],
{
}

} // verus!
