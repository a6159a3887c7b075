use geyser_ingest::error::IngestError;
use geyser_ingest::queue::BoundedQueue;
use geyser_ingest::retry::{RetryAction, RetryPolicy};

fn policy(panic_on_error: bool) -> RetryPolicy {
    RetryPolicy { panic_on_error, max_attempts: 4, base_backoff_ms: 100, max_backoff_ms: 1000 }
}

#[test]
fn backoff_doubles_up_to_the_cap() {
    let p = policy(false);
    let waits: Vec<u64> = (1..=6).map(|a| p.backoff_ms(a)).collect();
    assert_eq!(waits, vec![100, 200, 400, 800, 1000, 1000]);
    assert_eq!(p.backoff_ms(0), 100);
    let capped = RetryPolicy { panic_on_error: false, max_attempts: 2, base_backoff_ms: 50, max_backoff_ms: 30 };
    assert_eq!(capped.backoff_ms(1), 30);
}

#[test]
fn success_is_done() {
    assert_eq!(policy(false).next_action(1, Ok(())), RetryAction::Done);
    assert_eq!(policy(true).next_action(3, Ok(())), RetryAction::Done);
}

#[test]
fn transient_failures_are_retried_until_the_budget() {
    let p = policy(false);
    assert_eq!(p.next_action(1, Err(IngestError::ConnectionError)), RetryAction::Retry { backoff_ms: 100 });
    assert_eq!(p.next_action(3, Err(IngestError::WriteError)), RetryAction::Retry { backoff_ms: 400 });
    assert_eq!(p.next_action(4, Err(IngestError::WriteError)), RetryAction::Drop);
}

#[test]
fn other_failures_drop_the_batch() {
    let p = policy(false);
    assert_eq!(p.next_action(1, Err(IngestError::OrderingViolationError)), RetryAction::Drop);
    assert_eq!(p.next_action(1, Err(IngestError::DroppedBatchError)), RetryAction::Drop);
}

#[test]
fn panic_on_error_halts() {
    assert_eq!(policy(true).next_action(1, Err(IngestError::ConnectionError)), RetryAction::Halt);
}

#[test]
fn transient_errors() {
    assert!(IngestError::ConnectionError.transient());
    assert!(IngestError::WriteError.transient());
    assert!(!IngestError::ConfigurationError.transient());
    assert!(!IngestError::OrderingViolationError.transient());
}

#[test]
fn queue_applies_backpressure_and_resumes() {
    let mut q: BoundedQueue<u32> = BoundedQueue::new(2);
    assert_eq!(q.try_submit(1), Ok(()));
    assert_eq!(q.try_submit(2), Ok(()));
    assert!(q.is_full());
    assert_eq!(q.try_submit(3), Err(3));
    assert_eq!(q.len(), 2);
    assert_eq!(q.pop(), Some(1));
    assert_eq!(q.try_submit(3), Ok(()));
    assert_eq!(q.drain(), vec![2, 3]);
    assert_eq!(q.pop(), None);
    assert_eq!(q.capacity(), 2);
}
