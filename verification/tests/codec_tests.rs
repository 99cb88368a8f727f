//! Serializer tests: the JSON line of a parsed command, checked textually
//! and against an independent JSON parser.

use relay_pty::codec::{command_from_json, command_to_json};
use relay_pty::protocol::ParsedRelayCommand;

#[test]
fn test_command_json_message_exact() {
    let cmd = ParsedRelayCommand::new_message(
        "Alice".to_string(),
        "Bob".to_string(),
        "Hello".to_string(),
        "->relay:Bob Hello".to_string(),
    );
    assert_eq!(
        command_to_json(&cmd),
        r#"{"type":"relay_command","kind":"message","from":"Alice","to":"Bob","body":"Hello","raw":"->relay:Bob Hello"}"#
    );
}

#[test]
fn test_command_json_escapes() {
    let cmd = ParsedRelayCommand::new_message(
        "A".to_string(),
        "B".to_string(),
        "line1\nline2\t\"quoted\" \\ and \u{1}".to_string(),
        "raw".to_string(),
    );
    let json = command_to_json(&cmd);
    assert!(json.contains(r#""body":"line1\nline2\t\"quoted\" \\ and \u0001""#));
}

#[test]
fn test_command_json_round_trip_through_serde() {
    // an independent JSON parser reads the verified serializer's output
    // back to the same structure
    let cmd = ParsedRelayCommand::new_spawn(
        "Alice".to_string(),
        "Worker1".to_string(),
        "codex".to_string(),
        "fix the \"bug\"\nquickly".to_string(),
        "->relay:spawn Worker1 codex <<<task>>>".to_string(),
    );
    let json = command_to_json(&cmd);
    let v: serde_json::Value = serde_json::from_str(&json).unwrap();
    assert_eq!(v["type"], "relay_command");
    assert_eq!(v["kind"], "spawn");
    assert_eq!(v["from"], "Alice");
    assert_eq!(v["spawn_name"], "Worker1");
    assert_eq!(v["spawn_cli"], "codex");
    assert_eq!(v["spawn_task"], "fix the \"bug\"\nquickly");
    assert!(v.get("thread").is_none());
    assert!(v.get("release_name").is_none());
}

#[test]
fn test_command_json_thread_field() {
    let cmd = ParsedRelayCommand::new_message(
        "Alice".to_string(),
        "Bob".to_string(),
        "hi".to_string(),
        "raw".to_string(),
    )
    .with_thread("task-1".to_string());
    let json = command_to_json(&cmd);
    let v: serde_json::Value = serde_json::from_str(&json).unwrap();
    assert_eq!(v["thread"], "task-1");
}

#[test]
fn test_command_json_round_trip_exec() {
    let cases = vec![
        ParsedRelayCommand::new_message(
            "Alice".to_string(),
            "Bob".to_string(),
            "hi\nthere \"friend\"\\".to_string(),
            "->relay:Bob hi".to_string(),
        ),
        ParsedRelayCommand::new_message(
            "A".to_string(),
            "B".to_string(),
            "control \u{1} and tab\t".to_string(),
            "r".to_string(),
        )
        .with_thread("t-1".to_string()),
        ParsedRelayCommand::new_spawn(
            "Alice".to_string(),
            "W".to_string(),
            "codex".to_string(),
            "task".to_string(),
            "raw".to_string(),
        ),
        ParsedRelayCommand::new_release("Alice".to_string(), "W".to_string(), "raw".to_string()),
    ];
    for cmd in cases {
        let json = command_to_json(&cmd);
        let back = command_from_json(&json).expect("round trip parse");
        assert_eq!(back, cmd);
    }
}
