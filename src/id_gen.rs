use crate::todo::TodoId;
use vstd::prelude::*;

verus! {

/// Hands out identifiers 0, 1, 2, ... one per call.
pub struct IdGenerator {
    next: TodoId,
}

impl View for IdGenerator {
    type V = TodoId;

    /// The identifier that the next call hands out.
    closed spec fn view(&self) -> TodoId {
        self.next
    }
}

impl IdGenerator {
    /// A generator whose first identifier is 0.
    pub fn new() -> (r: IdGenerator)
        ensures
            r@ == 0,
    {
        IdGenerator { next: 0 }
    }

    /// The identifier that the next call of `next_id` hands out.
    pub fn peek(&self) -> (r: TodoId)
        ensures
            r == self@,
    {
        self.next
    }

    /// Returns the current identifier and advances the counter by one.
    pub fn next_id(&mut self) -> (r: TodoId)
        requires
            old(self)@ < TodoId::MAX,
        ensures
            r == old(self)@,
            final(self)@ == old(self)@ + 1,
    {
        let id = self.next;
        self.next = id + 1;
        id
    }
}

} // verus!
