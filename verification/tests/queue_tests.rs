use relay_queue::queue::{DrainStep, RelayQueue, QUIET_INTERVAL};

#[test]
fn ordering_out_of_order_admissions_drain_sorted() {
    let mut q = RelayQueue::new(0);
    q.accept("five".to_owned(), 5, 1);
    q.accept("three".to_owned(), 3, 2);
    q.accept("seven".to_owned(), 7, 3);
    let batch = q.take_batch();
    let keys: Vec<i32> = batch.iter().map(|m| m.key).collect();
    assert_eq!(keys, vec![3, 5, 7]);
}

#[test]
fn dedup_same_key_overwrites_in_place() {
    let mut q = RelayQueue::new(0);
    q.accept("A".to_owned(), 3, 1);
    q.accept("keep".to_owned(), 1, 2);
    let len_before = q.items.len();
    q.accept("B".to_owned(), 3, 3);
    assert_eq!(q.items.len(), len_before);
    let batch = q.take_batch();
    assert_eq!(batch.len(), 2);
    assert_eq!(batch[1].key, 3);
    assert_eq!(batch[1].content, "B");
    assert_eq!(batch[0].key, 1);
    assert_eq!(batch[0].content, "keep");
}

#[test]
fn debounce_waits_until_quiet_interval_elapses() {
    let mut q = RelayQueue::new(0);
    q.accept("x".to_owned(), 1, 10);
    assert!(matches!(q.poll_quiet(10), DrainStep::Wait));
    assert!(matches!(q.poll_quiet(10 + QUIET_INTERVAL - 1), DrainStep::Wait));
    assert!(matches!(q.poll_quiet(10 + QUIET_INTERVAL), DrainStep::Drain));
}

#[test]
fn debounce_admission_resets_the_wait() {
    let mut q = RelayQueue::new(0);
    q.accept("x".to_owned(), 1, 10);
    // A further admission right before the interval elapses pushes the
    // earliest drain out past its own arrival time.
    q.accept("y".to_owned(), 2, 10 + QUIET_INTERVAL - 1);
    assert!(matches!(q.poll_quiet(10 + QUIET_INTERVAL), DrainStep::Wait));
    assert!(matches!(
        q.poll_quiet(10 + QUIET_INTERVAL - 1 + QUIET_INTERVAL),
        DrainStep::Drain
    ));
}

#[test]
fn quiet_empty_queue_finishes_without_dispatch() {
    let mut q = RelayQueue::new(0);
    q.accept("x".to_owned(), 1, 5);
    let _ = q.take_batch();
    assert!(matches!(q.poll_quiet(5 + QUIET_INTERVAL), DrainStep::Finish));
}

#[test]
fn single_worker_only_first_admission_starts_one() {
    let mut q = RelayQueue::new(0);
    let s1 = q.accept("a".to_owned(), 1, 1);
    let s2 = q.accept("b".to_owned(), 2, 2);
    let s3 = q.accept("c".to_owned(), 3, 3);
    assert!(s1);
    assert!(!s2);
    assert!(!s3);
    assert!(q.worker_active);
}

#[test]
fn worker_done_lets_a_new_admission_start_a_worker() {
    let mut q = RelayQueue::new(0);
    assert!(q.accept("a".to_owned(), 1, 1));
    q.worker_done();
    assert!(!q.worker_active);
    assert!(q.accept("b".to_owned(), 2, 2));
}

#[test]
fn take_batch_empties_queue_and_keeps_flag() {
    let mut q = RelayQueue::new(0);
    q.accept("a".to_owned(), 2, 1);
    q.accept("b".to_owned(), 1, 2);
    let batch = q.take_batch();
    assert_eq!(batch.len(), 2);
    assert!(q.items.is_empty());
    assert!(q.worker_active);
    assert_eq!(q.last_arrival, 2);
}
