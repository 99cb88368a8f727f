//! Queue tests: priority ordering, deduplication, backpressure, retry
//! bookkeeping, dedup TTL sweeps and the delivery path.

use relay_pty::protocol::{InjectResponse, InjectStatus, QueuedMessage};
use relay_pty::queue::MessageQueue;
use relay_pty::socket::handle_inject;

fn msg(id: &str, from: &str, body: &str, priority: i32) -> QueuedMessage {
    QueuedMessage::new(id.to_string(), from.to_string(), body.to_string(), priority)
}

#[test]
fn test_priority_ordering() {
    let mut queue = MessageQueue::new(10);
    let now = 1_000;

    queue.enqueue(msg("low", "A", "Low priority", 10), now);
    queue.enqueue(msg("high", "A", "High priority", 1), now);
    queue.enqueue(msg("medium", "A", "Medium priority", 5), now);

    let msg1 = queue.dequeue().0.unwrap();
    assert_eq!(msg1.id, "high");

    let msg2 = queue.dequeue().0.unwrap();
    assert_eq!(msg2.id, "medium");

    let msg3 = queue.dequeue().0.unwrap();
    assert_eq!(msg3.id, "low");
}

#[test]
fn test_priority_tie_broken_by_queue_time() {
    let mut queue = MessageQueue::new(10);
    let mut first = msg("first", "A", "older", 5);
    first.queued_at = 100;
    let mut second = msg("second", "A", "newer", 5);
    second.queued_at = 200;
    queue.enqueue(second, 1_000);
    queue.enqueue(first, 1_000);
    assert_eq!(queue.dequeue().0.unwrap().id, "first");
    assert_eq!(queue.dequeue().0.unwrap().id, "second");
}

#[test]
fn test_deduplication() {
    let mut queue = MessageQueue::new(10);
    let now = 1_000;

    let (result1, events1) = queue.enqueue(msg("dup", "A", "First", 0), now);
    assert!(result1);
    assert_eq!(events1.len(), 1);
    assert!(matches!(
        &events1[0],
        InjectResponse::InjectResult {
            status: InjectStatus::Queued,
            ..
        }
    ));

    let (result2, events2) = queue.enqueue(msg("dup", "A", "Second", 0), now);
    assert!(!result2);
    assert!(events2.is_empty());

    assert_eq!(queue.len(), 1);
}

#[test]
fn test_backpressure() {
    let mut queue = MessageQueue::new(2);
    let now = 1_000;

    let (a, _) = queue.enqueue(msg("1", "A", "Msg 1", 0), now);
    assert!(a);
    let (b, _) = queue.enqueue(msg("2", "A", "Msg 2", 0), now);
    assert!(b);

    let (result, events) = queue.enqueue(msg("3", "A", "Msg 3", 0), now);
    assert!(!result);
    assert_eq!(events.len(), 1);
    match &events[0] {
        InjectResponse::Backpressure {
            queue_length,
            accept,
        } => {
            assert_eq!(*queue_length, 2);
            assert!(!accept);
        }
        other => panic!("expected backpressure, got {:?}", other),
    }

    // only accepted ids persist in the dedup map: the rejected id may be
    // resubmitted as soon as the queue has room
    queue.dequeue().0.unwrap();
    let (retried, _) = queue.enqueue(msg("3", "A", "Msg 3 again", 0), now + 1);
    assert!(retried);
}

#[test]
fn test_inject_rejection_message() {
    let mut queue = MessageQueue::new(2);
    let now = 1_000;
    let (reply1, _, accepted1) = handle_inject(
        &mut queue,
        "msg-1".to_string(),
        "Alice".to_string(),
        "Hello".to_string(),
        0,
        now,
    );
    assert!(accepted1);
    assert!(matches!(
        reply1,
        InjectResponse::InjectResult {
            status: InjectStatus::Queued,
            ..
        }
    ));

    let (reply2, _, accepted2) = handle_inject(
        &mut queue,
        "msg-1".to_string(),
        "Alice".to_string(),
        "Hello again".to_string(),
        0,
        now,
    );
    assert!(!accepted2);
    match reply2 {
        InjectResponse::Error { message } => {
            assert!(message.contains("rejected"));
            assert!(message.contains("msg-1"));
        }
        other => panic!("expected an error reply, got {:?}", other),
    }
    assert_eq!(queue.len(), 1);
}

#[test]
fn test_retry_increments_and_requeues() {
    let mut queue = MessageQueue::new(10);
    queue.enqueue(msg("r1", "A", "retry me", 0), 1_000);
    let taken = queue.dequeue().0.unwrap();
    assert_eq!(taken.retries, 0);
    queue.retry(taken, 2_000);
    let again = queue.dequeue().0.unwrap();
    assert_eq!(again.retries, 1);
    assert_eq!(again.queued_at, 2_000);
}

#[test]
fn test_mark_delivered_allows_reuse() {
    let mut queue = MessageQueue::new(10);
    let (a, _) = queue.enqueue(msg("once", "A", "first", 0), 1_000);
    assert!(a);
    queue.dequeue().0.unwrap();
    queue.mark_delivered("once");
    let (b, _) = queue.enqueue(msg("once", "A", "second", 0), 1_001);
    assert!(b);
}

#[test]
fn test_dedup_ttl_sweep_frees_old_ids() {
    // ttl one second, sweep every second
    let mut queue = MessageQueue::with_ttl(10, 1, 1);
    let t0 = relay_pty::clock::current_timestamp_ms();
    let (a, _) = queue.enqueue(msg("t1", "A", "first", 0), t0 + 2_000);
    assert!(a);
    queue.dequeue().0.unwrap();
    // well past the ttl and the sweep interval: the id may be reused
    let (b, _) = queue.enqueue(msg("t1", "A", "second", 0), t0 + 10_000);
    assert!(b);
}

#[test]
fn test_backpressure_recovery_event() {
    // filling the queue without any rejection raises no recovery event
    let mut queue = MessageQueue::new(4);
    for (id, body) in [("a", "1"), ("b", "2"), ("c", "3"), ("d", "4")] {
        let (ok, events) = queue.enqueue(msg(id, "A", body, 0), 1_000);
        assert!(ok);
        assert_eq!(events.len(), 1);
    }
    let (deq, events) = queue.dequeue();
    assert!(deq.is_some());
    assert!(events.is_empty());

    // after a capacity rejection, draining down to half capacity raises
    // exactly one accepting backpressure event
    let (ok, _) = queue.enqueue(msg("e", "A", "5", 0), 1_000);
    assert!(ok);
    let (rejected, _) = queue.enqueue(msg("f", "A", "6", 0), 1_000);
    assert!(!rejected);

    let (_, events) = queue.dequeue(); // 4 -> 3
    assert!(events.is_empty());
    let (_, events) = queue.dequeue(); // 3 -> 2 == max/2
    assert_eq!(events.len(), 1);
    match &events[0] {
        InjectResponse::Backpressure {
            queue_length,
            accept,
        } => {
            assert_eq!(*queue_length, 2);
            assert!(accept);
        }
        other => panic!("expected backpressure recovery, got {:?}", other),
    }
    let (_, events) = queue.dequeue(); // 2 -> 1: signal already sent
    assert!(events.is_empty());
}

#[test]
fn test_stats_and_peek() {
    let mut queue = MessageQueue::new(10);
    queue.enqueue(msg("s1", "A", "x", 3), 1_000);
    queue.enqueue(msg("s2", "A", "y", 1), 1_000);
    let stats = queue.stats();
    assert_eq!(stats.queue_length, 2);
    assert_eq!(stats.max_size, 10);
    assert_eq!(stats.seen_count, 2);
    let top = queue.peek().unwrap();
    assert_eq!(top.id, "s2");
    assert_eq!(queue.len(), 2);
}

#[test]
fn test_report_result_event_shape() {
    let queue = MessageQueue::new(10);
    let event = queue.report_result(
        "m1".to_string(),
        InjectStatus::Delivered,
        None,
        5_000,
    );
    match event {
        InjectResponse::InjectResult {
            id,
            status,
            timestamp,
            error,
        } => {
            assert_eq!(id, "m1");
            assert_eq!(status, InjectStatus::Delivered);
            assert_eq!(timestamp, 5_000);
            assert!(error.is_none());
        }
        other => panic!("expected a status report, got {:?}", other),
    }
}
