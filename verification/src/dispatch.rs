//! The relay dispatcher's decisions.
//!
//! The dispatcher walks a drained batch in ascending sequence-key order
//! and, for each item, predicts the identifier the platform will assign
//! (one past the last confirmed one), sends the content with a caption
//! referencing the prediction, then reconciles the identifier the platform
//! actually assigned: on a match nothing more is sent; on a mismatch
//! exactly one correction referencing the actual identifier is owed.
//! Either way the tracker ends at the actual identifier, so later
//! predictions stay consistent. Consecutive sends are paced by a fixed
//! delay, never applied after the last item. The host performs the sends,
//! the caption edit and the sleeps.

use crate::tracker::SequenceTracker;
use vstd::prelude::*;

verus! {

/// Minimum delay, in seconds, between consecutive sends of one batch.
pub const PACING_DELAY: u64 = 1;

/// The delay to impose after sending item `index` of a batch of `total`
/// items: the pacing delay between consecutive sends, and none after the
/// last.
pub fn pacing_delay(index: usize, total: usize) -> (d: u64)
    requires
        index < total,
    ensures
        d == (if index + 1 < total {
            PACING_DELAY
        } else {
            0u64
        }),
{
    if index + 1 < total {
        PACING_DELAY
    } else {
        0
    }
}

/// Reconcile one send with the identifier the platform actually assigned.
///
/// The tracker always ends at `actual`. A correction referencing `actual`
/// is owed exactly when the prediction — one past the tracker's previous
/// value — missed; on a correct prediction no correction call is made.
/// The correction is issued once; if it fails, the host only reports the
/// failure, and the tracker already holds `actual`.
pub fn settle_send(tracker: &mut SequenceTracker, actual: i32) -> (correction: Option<i32>)
    ensures
        final(tracker).last == actual,
        correction == (if actual == old(tracker).last + 1 {
            Option::<i32>::None
        } else {
            Option::Some(actual)
        }),
{
    let predicted_hit = tracker.last < i32::MAX && actual == tracker.last + 1;
    tracker.record(actual);
    if predicted_hit {
        None
    } else {
        Some(actual)
    }
}

} // verus!
