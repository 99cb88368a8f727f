//! Formatting tests for queued messages: retry escalation and
//! pre-formatted-body detection.

use relay_pty::protocol::QueuedMessage;

#[test]
fn test_queued_message_format() {
    let msg = QueuedMessage::new(
        "abc1234567890".to_string(),
        "Bob".to_string(),
        "Test message".to_string(),
        0,
    );
    let formatted = msg.format_for_injection();
    assert_eq!(formatted, "Relay message from Bob [abc1234]: Test message");
}

#[test]
fn test_queued_message_format_with_retry_escalation() {
    let mut msg = QueuedMessage::new(
        "abc1234567890".to_string(),
        "Alice".to_string(),
        "Important task".to_string(),
        0,
    );

    assert_eq!(
        msg.format_for_injection(),
        "Relay message from Alice [abc1234]: Important task"
    );

    msg.retries = 1;
    assert_eq!(
        msg.format_for_injection(),
        "[RETRY] Relay message from Alice [abc1234]: Important task"
    );

    msg.retries = 2;
    assert_eq!(
        msg.format_for_injection(),
        "[URGENT - PLEASE ACKNOWLEDGE] Relay message from Alice [abc1234]: Important task"
    );

    msg.retries = 3;
    assert_eq!(
        msg.format_for_injection(),
        "[URGENT - PLEASE ACKNOWLEDGE] Relay message from Alice [abc1234]: Important task"
    );
}

#[test]
fn test_queued_message_format_preformatted() {
    let msg = QueuedMessage::new(
        "xyz7890".to_string(),
        "Alice".to_string(),
        "Relay message from Alice [abc12345]: Hello world".to_string(),
        0,
    );

    assert_eq!(
        msg.format_for_injection(),
        "Relay message from Alice [abc12345]: Hello world"
    );
}

#[test]
fn test_queued_message_format_preformatted_with_retry() {
    let mut msg = QueuedMessage::new(
        "xyz7890".to_string(),
        "Alice".to_string(),
        "Relay message from Alice [abc12345]: Hello world".to_string(),
        0,
    );

    msg.retries = 1;
    assert_eq!(
        msg.format_for_injection(),
        "[RETRY] Relay message from Alice [abc12345]: Hello world"
    );

    msg.retries = 2;
    assert_eq!(
        msg.format_for_injection(),
        "[URGENT - PLEASE ACKNOWLEDGE] Relay message from Alice [abc12345]: Hello world"
    );
}

#[test]
fn test_preformatted_with_thread_hint() {
    let msg = QueuedMessage::new(
        "xyz7890".to_string(),
        "Alice".to_string(),
        "Relay message from Alice [abc12345] [thread:task-123]: Please review".to_string(),
        0,
    );
    assert_eq!(
        msg.format_for_injection(),
        "Relay message from Alice [abc12345] [thread:task-123]: Please review"
    );
}

#[test]
fn test_preformatted_with_importance_high() {
    let msg = QueuedMessage::new(
        "xyz7890".to_string(),
        "Lead".to_string(),
        "Relay message from Lead [abc12345] [!!]: URGENT task".to_string(),
        0,
    );
    assert_eq!(
        msg.format_for_injection(),
        "Relay message from Lead [abc12345] [!!]: URGENT task"
    );
}

#[test]
fn test_preformatted_with_importance_medium() {
    let msg = QueuedMessage::new(
        "xyz7890".to_string(),
        "Lead".to_string(),
        "Relay message from Lead [abc12345] [!]: Important task".to_string(),
        0,
    );
    assert_eq!(
        msg.format_for_injection(),
        "Relay message from Lead [abc12345] [!]: Important task"
    );
}

#[test]
fn test_preformatted_with_channel_hint() {
    let msg = QueuedMessage::new(
        "xyz7890".to_string(),
        "Alice".to_string(),
        "Relay message from Alice [abc12345] [#general]: Hello team".to_string(),
        0,
    );
    assert_eq!(
        msg.format_for_injection(),
        "Relay message from Alice [abc12345] [#general]: Hello team"
    );
}

#[test]
fn test_preformatted_with_broadcast_hint() {
    let msg = QueuedMessage::new(
        "xyz7890".to_string(),
        "Lead".to_string(),
        "Relay message from Lead [abc12345] [#general]: Broadcast message".to_string(),
        0,
    );
    assert_eq!(
        msg.format_for_injection(),
        "Relay message from Lead [abc12345] [#general]: Broadcast message"
    );
}

#[test]
fn test_preformatted_with_multiple_hints() {
    let msg = QueuedMessage::new(
        "xyz7890".to_string(),
        "Lead".to_string(),
        "Relay message from Lead [abc12345] [thread:proj-1] [!!] [#dev]: Critical fix needed"
            .to_string(),
        0,
    );
    assert_eq!(
        msg.format_for_injection(),
        "Relay message from Lead [abc12345] [thread:proj-1] [!!] [#dev]: Critical fix needed"
    );
}

#[test]
fn test_preformatted_dashboard_sender() {
    let msg = QueuedMessage::new(
        "xyz7890".to_string(),
        "_DashboardUI".to_string(),
        "Relay message from john_doe [abc12345]: Task from dashboard".to_string(),
        0,
    );
    assert_eq!(
        msg.format_for_injection(),
        "Relay message from john_doe [abc12345]: Task from dashboard"
    );
}

#[test]
fn test_preformatted_system_sender() {
    let msg = QueuedMessage::new(
        "init-123".to_string(),
        "system".to_string(),
        "Relay message from system [init-123]: Agent initialized".to_string(),
        0,
    );
    assert_eq!(
        msg.format_for_injection(),
        "Relay message from system [init-123]: Agent initialized"
    );
}

#[test]
fn test_similar_but_not_preformatted_missing_space() {
    let msg = QueuedMessage::new(
        "xyz7890".to_string(),
        "Bob".to_string(),
        "Relay message fromAlice: not formatted correctly".to_string(),
        0,
    );
    assert_eq!(
        msg.format_for_injection(),
        "Relay message from Bob [xyz7890]: Relay message fromAlice: not formatted correctly"
    );
}

#[test]
fn test_similar_but_not_preformatted_lowercase() {
    let msg = QueuedMessage::new(
        "xyz7890".to_string(),
        "Bob".to_string(),
        "relay message from Alice: lowercase".to_string(),
        0,
    );
    assert_eq!(
        msg.format_for_injection(),
        "Relay message from Bob [xyz7890]: relay message from Alice: lowercase"
    );
}

#[test]
fn test_body_mentions_relay_in_middle() {
    let msg = QueuedMessage::new(
        "xyz7890".to_string(),
        "Bob".to_string(),
        "I saw a Relay message from Alice earlier".to_string(),
        0,
    );
    assert_eq!(
        msg.format_for_injection(),
        "Relay message from Bob [xyz7890]: I saw a Relay message from Alice earlier"
    );
}

#[test]
fn test_body_with_quoted_relay_message() {
    let msg = QueuedMessage::new(
        "xyz7890".to_string(),
        "Bob".to_string(),
        "User said: \"Relay message from Alice [abc]: test\"".to_string(),
        0,
    );
    assert_eq!(
        msg.format_for_injection(),
        "Relay message from Bob [xyz7890]: User said: \"Relay message from Alice [abc]: test\""
    );
}

#[test]
fn test_empty_body() {
    let msg = QueuedMessage::new("xyz7890".to_string(), "Bob".to_string(), "".to_string(), 0);
    assert_eq!(
        msg.format_for_injection(),
        "Relay message from Bob [xyz7890]: "
    );
}

#[test]
fn test_body_with_newlines() {
    let msg = QueuedMessage::new(
        "xyz7890".to_string(),
        "Bob".to_string(),
        "Line 1\nLine 2\nLine 3".to_string(),
        0,
    );
    assert_eq!(
        msg.format_for_injection(),
        "Relay message from Bob [xyz7890]: Line 1\nLine 2\nLine 3"
    );
}

#[test]
fn test_body_with_unicode() {
    let msg = QueuedMessage::new(
        "xyz7890".to_string(),
        "Bob".to_string(),
        "Hello 你好 مرحبا 🚀".to_string(),
        0,
    );
    assert_eq!(
        msg.format_for_injection(),
        "Relay message from Bob [xyz7890]: Hello 你好 مرحبا 🚀"
    );
}

#[test]
fn test_body_with_special_chars() {
    let msg = QueuedMessage::new(
        "xyz7890".to_string(),
        "Bob".to_string(),
        "Special: <>&\"'`$(){}[]|\\".to_string(),
        0,
    );
    assert_eq!(
        msg.format_for_injection(),
        "Relay message from Bob [xyz7890]: Special: <>&\"'`$(){}[]|\\"
    );
}

#[test]
fn test_very_long_message() {
    let long_body = "x".repeat(10000);
    let msg = QueuedMessage::new(
        "xyz7890".to_string(),
        "Bob".to_string(),
        long_body.clone(),
        0,
    );
    let formatted = msg.format_for_injection();
    assert!(formatted.starts_with("Relay message from Bob [xyz7890]: "));
    assert!(formatted.ends_with(&long_body));
}

#[test]
fn test_preformatted_very_long_message() {
    let long_content = "y".repeat(10000);
    let preformatted = format!("Relay message from Alice [abc12345]: {}", long_content);
    let msg = QueuedMessage::new(
        "xyz7890".to_string(),
        "System".to_string(),
        preformatted.clone(),
        0,
    );
    assert_eq!(msg.format_for_injection(), preformatted);
}

#[test]
fn test_sender_with_underscore() {
    let msg = QueuedMessage::new(
        "xyz7890".to_string(),
        "worker_1".to_string(),
        "Task complete".to_string(),
        0,
    );
    assert_eq!(
        msg.format_for_injection(),
        "Relay message from worker_1 [xyz7890]: Task complete"
    );
}

#[test]
fn test_sender_with_numbers() {
    let msg = QueuedMessage::new(
        "xyz7890".to_string(),
        "Agent42".to_string(),
        "Status update".to_string(),
        0,
    );
    assert_eq!(
        msg.format_for_injection(),
        "Relay message from Agent42 [xyz7890]: Status update"
    );
}

#[test]
fn test_short_message_id() {
    let msg = QueuedMessage::new(
        "abc".to_string(),
        "Bob".to_string(),
        "Short ID".to_string(),
        0,
    );
    assert_eq!(
        msg.format_for_injection(),
        "Relay message from Bob [abc]: Short ID"
    );
}

#[test]
fn test_preformatted_different_senders() {
    let msg = QueuedMessage::new(
        "xyz7890".to_string(),
        "Relay".to_string(),
        "Relay message from Alice [orig123]: Original message".to_string(),
        0,
    );
    assert_eq!(
        msg.format_for_injection(),
        "Relay message from Alice [orig123]: Original message"
    );
}
