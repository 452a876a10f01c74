//! The applier receives each acknowledged operation after it was answered;
//! it counts them, and the first one is worth a log line.

use vstd::prelude::*;

verus! {

/// The applier's state: how many operations it has received.
pub struct Applier {
    apply_count: u64,
}

impl Applier {
    /// A fresh applier that has received nothing.
    pub fn new() -> (a: Applier)
        ensures
            a.spec_apply_count() == 0,
    {
        Applier { apply_count: 0 }
    }

    pub closed spec fn spec_apply_count(&self) -> u64 {
        self.apply_count
    }

    /// How many operations the applier has received.
    #[verifier::when_used_as_spec(spec_apply_count)]
    pub fn apply_count(&self) -> (n: u64)
        ensures
            n == self.spec_apply_count(),
    {
        self.apply_count
    }

    /// Whether one more operation can be counted without the counter
    /// passing the largest `u64`.
    pub fn can_apply(&self) -> (b: bool)
        ensures
            b == (self.spec_apply_count() < u64::MAX),
    {
        self.apply_count < u64::MAX
    }

    /// Receives operation `operation_id` over `book_ids`: the count grows by
    /// one, and the answer says whether this was the first operation received.
    pub fn apply(&mut self, operation_id: u64, book_ids: &Vec<u32>) -> (first: bool)
        requires
            old(self).spec_apply_count() < u64::MAX,
        ensures
            final(self).spec_apply_count() == old(self).spec_apply_count() + 1,
            first == (old(self).spec_apply_count() == 0),
    {
        self.apply_count = self.apply_count + 1;
        self.apply_count == 1
    }
}

} // verus!
