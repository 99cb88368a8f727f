//! End-to-end scenarios at the library level: the happy injection path,
//! fenced and file-backed parsing, retry escalation, and the connection
//! status stream.

use relay_pty::inject::{injection_step, InjectAction, InjectOutcome};
use relay_pty::parser::OutputParser;
use relay_pty::protocol::{InjectResponse, InjectStatus, QueuedMessage, StatusInfo};
use relay_pty::queue::MessageQueue;
use relay_pty::outbox::{create_outbox_monitor, OutboxMonitor, OutboxMonitorConfig};
use relay_pty::socket::{status_response, ConnectionState};

#[test]
fn test_happy_path_injection_bytes() {
    // accept one message, dequeue it, and check the exact bytes written
    let mut queue = MessageQueue::new(10);
    let now = 1_000;
    let (accepted, events) = queue.enqueue(
        QueuedMessage::new(
            "msg-1".to_string(),
            "Tester".to_string(),
            "Hello".to_string(),
            0,
        ),
        now,
    );
    assert!(accepted);
    assert!(matches!(
        &events[0],
        InjectResponse::InjectResult {
            status: InjectStatus::Queued,
            ..
        }
    ));

    let msg = queue.dequeue().0.unwrap();
    let formatted = msg.format_for_injection();
    assert_eq!(
        formatted.as_bytes(),
        b"Relay message from Tester [msg-1]: Hello"
    );

    // the write went through: the attempt delivers
    assert!(matches!(
        injection_step(&msg, InjectOutcome::WriteOk, 3),
        InjectAction::Deliver
    ));
    let delivered = queue.report_result("msg-1".to_string(), InjectStatus::Delivered, None, now);
    assert!(matches!(
        delivered,
        InjectResponse::InjectResult {
            status: InjectStatus::Delivered,
            ..
        }
    ));
}

#[test]
fn test_parser_fenced_scenario() {
    let mut parser = OutputParser::new("Alice".to_string(), r"^> $");
    let result = parser.process(b"->relay:Bob <<<\nHello\nworld>>>\n");
    assert_eq!(result.commands.len(), 1);
    assert_eq!(result.commands[0].kind, "message");
    assert_eq!(result.commands[0].to, "Bob");
    assert_eq!(result.commands[0].body, "Hello\nworld");
}

#[test]
fn test_retry_escalation_three_attempts() {
    // force verification failure twice with max_retries 3: the three
    // successive injected strings escalate
    let mut queue = MessageQueue::new(10);
    queue.enqueue(
        QueuedMessage::new("e1".to_string(), "A".to_string(), "task".to_string(), 0),
        1_000,
    );

    let first = queue.dequeue().0.unwrap();
    assert!(first
        .format_for_injection()
        .starts_with("Relay message from "));
    assert!(matches!(
        injection_step(&first, InjectOutcome::VerifyFailed, 3),
        InjectAction::RetryAfterDelay
    ));
    queue.retry(first, 2_000);

    let second = queue.dequeue().0.unwrap();
    assert!(second.format_for_injection().starts_with("[RETRY] "));
    assert!(matches!(
        injection_step(&second, InjectOutcome::VerifyFailed, 3),
        InjectAction::RetryAfterDelay
    ));
    queue.retry(second, 3_000);

    let third = queue.dequeue().0.unwrap();
    assert!(third
        .format_for_injection()
        .starts_with("[URGENT - PLEASE ACKNOWLEDGE] "));
}

#[test]
fn test_connection_status_stream() {
    // the pre-registered id receives everything but the duplicate Queued,
    // and a delivery ends the tracking
    let mut conn = ConnectionState::new();
    conn.register_pending("m1".to_string());

    let queued = InjectResponse::InjectResult {
        id: "m1".to_string(),
        status: InjectStatus::Queued,
        timestamp: 1,
        error: None,
    };
    let d = conn.on_broadcast(&queued);
    assert!(!d.forward && !d.remove && !d.mark_delivered);

    let injecting = InjectResponse::InjectResult {
        id: "m1".to_string(),
        status: InjectStatus::Injecting,
        timestamp: 2,
        error: None,
    };
    let d = conn.on_broadcast(&injecting);
    assert!(d.forward && !d.remove);

    let other = InjectResponse::InjectResult {
        id: "other".to_string(),
        status: InjectStatus::Delivered,
        timestamp: 3,
        error: None,
    };
    let d = conn.on_broadcast(&other);
    assert!(!d.forward);

    let delivered = InjectResponse::InjectResult {
        id: "m1".to_string(),
        status: InjectStatus::Delivered,
        timestamp: 4,
        error: None,
    };
    let d = conn.on_broadcast(&delivered);
    assert!(d.forward && d.remove && d.mark_delivered);
    assert!(!conn.is_pending("m1"));
}

#[test]
fn test_status_snapshot_reply() {
    let info = StatusInfo {
        agent_idle: true,
        queue_length: 2,
        cursor_position: None,
        last_output_ms: 123,
    };
    match status_response(&info) {
        InjectResponse::Status {
            agent_idle,
            queue_length,
            cursor_position,
            last_output_ms,
        } => {
            assert!(agent_idle);
            assert_eq!(queue_length, 2);
            assert!(cursor_position.is_none());
            assert_eq!(last_output_ms, 123);
        }
        other => panic!("expected a status reply, got {:?}", other),
    }
}

#[test]
fn test_outbox_stale_detection() {
    let _ = OutboxMonitor::new(OutboxMonitorConfig::default());
    let mut monitor = create_outbox_monitor("TestAgent".to_string(), "/tmp/obx".to_string(), 1);
    monitor.note_created("test-msg".to_string(), "/tmp/obx/test-msg".to_string(), 1_000);

    // not stale yet
    let stale = monitor.check_stale(1_500);
    assert!(stale.is_empty());

    // past the timeout
    let stale = monitor.check_stale(3_000);
    assert_eq!(stale.len(), 1);
    assert_eq!(stale[0].file, "test-msg");
    assert_eq!(stale[0].agent, "TestAgent");
    assert!(stale[0].age_seconds >= 1);

    // only reported once
    let stale = monitor.check_stale(4_000);
    assert!(stale.is_empty());

    // hidden and temp files are ignored
    monitor.note_created(".hidden".to_string(), "/tmp/obx/.hidden".to_string(), 1_000);
    monitor.note_created("x.tmp".to_string(), "/tmp/obx/x.tmp".to_string(), 1_000);
    assert_eq!(monitor.watched_count(), 1);

    // a processed file is no longer watched
    monitor.file_processed("test-msg");
    assert_eq!(monitor.watched_count(), 0);
}
