use relay_queue::dispatch::{pacing_delay, settle_send, PACING_DELAY};
use relay_queue::tracker::SequenceTracker;

#[test]
fn pacing_between_consecutive_sends_but_not_after_last() {
    assert_eq!(pacing_delay(0, 3), PACING_DELAY);
    assert_eq!(pacing_delay(1, 3), PACING_DELAY);
    assert_eq!(pacing_delay(2, 3), 0);
}

#[test]
fn pacing_single_item_batch_has_no_delay() {
    assert_eq!(pacing_delay(0, 1), 0);
}

#[test]
fn prediction_success_updates_tracker_without_correction() {
    let mut t = SequenceTracker::new();
    t.record(5);
    let predicted = t.predict();
    assert_eq!(predicted, 6);
    let correction = settle_send(&mut t, 6);
    assert_eq!(correction, None);
    assert_eq!(t.last, 6);
}

#[test]
fn prediction_miss_requests_one_correction_with_actual() {
    let mut t = SequenceTracker::new();
    t.record(5);
    let correction = settle_send(&mut t, 9);
    assert_eq!(correction, Some(9));
    assert_eq!(t.last, 9);
}

#[test]
fn prediction_from_fresh_tracker() {
    let mut t = SequenceTracker::new();
    assert_eq!(t.predict(), 1);
    let correction = settle_send(&mut t, 1);
    assert_eq!(correction, None);
    assert_eq!(t.last, 1);
}
