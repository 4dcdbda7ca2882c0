//! Generation tags for background operations.
//!
//! Every long-running operation is tagged with a `RequestID` drawn from a
//! `RequestCounter`. The counter hands out strictly increasing values and
//! never reuses one, so comparing two ids is the sole mechanism by which
//! stale completions are told apart from current ones.

use vstd::prelude::*;

verus! {

/// A process-lifetime-unique generation tag.
///
/// Ids are only ever compared; they are never dense and never recycled.
#[derive(Clone, Copy, Debug, PartialEq, Eq, Structural)]
pub struct RequestID {
    pub value: u64,
}

/// Issues `RequestID`s in strictly increasing order.
///
/// The next id to be issued is `issued`; every id handed out so far is
/// strictly below it. Exhausting a 64-bit counter is treated as
/// unreachable in practice: `next` simply requires that the counter has
/// not reached its ceiling.
#[derive(Clone, Copy, Debug, PartialEq, Eq, Structural)]
pub struct RequestCounter {
    pub issued: u64,
}

impl RequestCounter {
    /// A fresh counter; the first id it issues is 0.
    pub fn new() -> (r: RequestCounter)
        ensures
            r.issued == 0,
    {
        RequestCounter { issued: 0 }
    }

    /// Issue the next id: the current counter value, after which the
    /// counter moves strictly up.
    pub fn next(&mut self) -> (r: RequestID)
        requires
            old(self).issued < u64::MAX,
        ensures
            r.value == old(self).issued,
            final(self).issued == old(self).issued + 1,
    {
        let id = RequestID { value: self.issued };
        self.issued = self.issued + 1;
        id
    }
}

/// Ids issued at two different moments of one counter's life never
/// collide, and later moments issue strictly larger ids.
///
/// `a` is the id issued when the counter stood at `at_a`, `b` the id
/// issued when it stood at `at_b`; between the two calls the counter has
/// moved strictly up (each `next` raises it by one and nothing lowers
/// it), which is what `at_a.issued < at_b.issued` records.
pub proof fn lemma_ids_strictly_increase(at_a: RequestCounter, at_b: RequestCounter, a: RequestID, b: RequestID)
    requires
        a.value == at_a.issued,
        b.value == at_b.issued,
        at_a.issued < at_b.issued,
    ensures
        a.value < b.value,
        a != b,
{
}

} // verus!
