//! The sequence tracker: the last publicly-confirmed post identifier.
//!
//! The dispatcher predicts that the platform will assign the identifier one
//! past the last confirmed one, and after every send (confirmed or
//! corrected) stores the identifier the platform actually assigned. The
//! tracker is meaningful only because dispatch is strictly sequential: one
//! worker, one batch, in-order sends.

use vstd::prelude::*;

verus! {

/// The last publicly-confirmed post identifier, zero at process start.
pub struct SequenceTracker {
    /// Identifier of the most recently confirmed public post.
    pub last: i32,
}

impl SequenceTracker {
    /// A fresh tracker: nothing has been confirmed yet.
    pub fn new() -> (t: SequenceTracker)
        ensures
            t.last == 0,
    {
        SequenceTracker { last: 0 }
    }

    /// The identifier the platform is predicted to assign to the next post:
    /// one past the last confirmed identifier.
    pub fn predict(&self) -> (p: i32)
        requires
            self.last < i32::MAX,
        ensures
            p == self.last + 1,
    {
        self.last + 1
    }

    /// Record the identifier the platform actually assigned.
    pub fn record(&mut self, actual: i32)
        ensures
            final(self).last == actual,
    {
        self.last = actual;
    }
}

} // verus!
