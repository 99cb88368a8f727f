//! Injector tests: relay-echo and auto-suggestion classification, idle
//! gating with auto-suggestion suppression, the recent-output bound, and
//! the per-attempt decision.

use relay_pty::clock::current_timestamp_ms;
use relay_pty::inject::{
    injection_step, is_auto_suggestion, is_relay_echo, InjectAction, InjectOutcome, Injector,
};
use relay_pty::parser::ParseResult;
use relay_pty::protocol::{Config, QueuedMessage};

fn test_config(idle_timeout_ms: u64) -> Config {
    Config {
        idle_timeout_ms,
        ..Config::default()
    }
}

fn test_parse_result(is_idle: bool) -> ParseResult {
    ParseResult {
        commands: Vec::new(),
        continuity_commands: Vec::new(),
        is_idle,
        ready_signal: false,
    }
}

#[test]
fn test_update_from_parse_sets_idle() {
    let mut injector = Injector::new(test_config(600000));
    let now = current_timestamp_ms();

    injector.update_from_parse(&test_parse_result(true));
    assert!(injector.check_idle(now));
}

#[test]
fn test_record_output_clears_idle_on_non_relay() {
    let mut injector = Injector::new(test_config(600000));
    let now = current_timestamp_ms();

    injector.update_from_parse(&test_parse_result(true));
    assert!(injector.check_idle(now));

    injector.record_output("Hello world", now);
    assert!(!injector.check_idle(now));
}

#[test]
fn test_record_output_keeps_idle_on_relay_echo() {
    let mut injector = Injector::new(test_config(600000));
    let now = current_timestamp_ms();

    injector.update_from_parse(&test_parse_result(true));
    assert!(injector.check_idle(now));

    injector.record_output("Relay message from Alice [abc]: Hi\n", now);
    assert!(injector.check_idle(now));
}

#[test]
fn test_idle_timeout_zero_is_immediately_idle() {
    let injector = Injector::new(test_config(0));
    let now = current_timestamp_ms();
    assert!(injector.check_idle(now));
}

#[test]
fn test_is_relay_echo() {
    assert!(is_relay_echo("Relay message from Alice [abc]: Hi\n"));
    assert!(is_relay_echo("\nRelay message from Bob [def]: Yo\n\n"));
    assert!(!is_relay_echo("Some other output\n"));
}

#[test]
fn test_is_auto_suggestion() {
    assert!(is_auto_suggestion(
        "\x1b[7mW\x1b[27m\x1b[2mhat's the task you need help with?\x1b[22m"
    ));
    assert!(is_auto_suggestion(
        "\x1b[7mT\x1b[27m\x1b[2mry \"how do I log an error?\"\x1b[22m"
    ));

    assert!(is_auto_suggestion("some text ↵ send"));

    assert!(!is_auto_suggestion("Hello world"));
    assert!(!is_auto_suggestion("Running tests..."));
    assert!(!is_auto_suggestion("\x1b[2m───────\x1b[22m"));
}

#[test]
fn test_record_output_blocks_injection_on_auto_suggestions() {
    let mut injector = Injector::new(test_config(600000));
    let now = current_timestamp_ms();

    injector.update_from_parse(&test_parse_result(true));
    assert!(injector.check_idle(now));

    injector.record_output("\x1b[7mW\x1b[27m\x1b[2mhat's the task?\x1b[22m", now);
    assert!(!injector.check_idle(now));

    injector.record_output("Some real output", now);
    assert!(!injector.check_idle(now));
}

#[test]
fn test_auto_suggestion_flag_cleared_by_real_output() {
    let mut injector = Injector::new(test_config(600000));
    let now = current_timestamp_ms();

    injector.update_from_parse(&test_parse_result(true));
    assert!(injector.check_idle(now));

    injector.record_output("\x1b[7mH\x1b[27m\x1b[2melp me\x1b[22m", now);
    assert!(!injector.check_idle(now));

    injector.record_output("Agent is working...", now);
    assert!(!injector.check_idle(now));

    injector.update_from_parse(&test_parse_result(true));
    assert!(injector.check_idle(now));
}

#[test]
fn test_is_auto_suggestion_real_world_patterns() {
    assert!(is_auto_suggestion(
        "\x1b[7mS\x1b[27m\x1b[2mend Dashboard their first task                                                          ↵ send\x1b[22m"
    ));

    assert!(is_auto_suggestion(
        "\x1b[7mH\x1b[27m\x1b[2melp me set up agent deployment\x1b[22m"
    ));

    assert!(is_auto_suggestion("                     ↵ send"));

    assert!(!is_auto_suggestion("\x1b[38;5;174m✻\x1b[39m"));
    assert!(!is_auto_suggestion("\x1b[38;5;174m✶\x1b[39m"));

    assert!(!is_auto_suggestion("> \x1b[7m \x1b[27m"));

    assert!(!is_auto_suggestion("\x1b[1mBash\x1b[22m(ls -la)"));
    assert!(!is_auto_suggestion("Relay message from Alice [abc]: Hello"));
}

#[test]
fn test_is_auto_suggestion_edge_cases() {
    assert!(!is_auto_suggestion(""));

    assert!(!is_auto_suggestion("\x1b[7mX\x1b[27m"));

    assert!(!is_auto_suggestion("\x1b[2m────────\x1b[22m"));

    assert!(!is_auto_suggestion(
        "\x1b[7mX\x1b[27m some text \x1b[2mdim\x1b[22m"
    ));

    assert!(is_auto_suggestion(
        "line1\n\x1b[7mA\x1b[27m\x1b[2muto complete\x1b[22m\nline2"
    ));
}

#[test]
fn test_recent_output_buffer_stays_bounded() {
    let mut injector = Injector::new(test_config(0));
    let now = current_timestamp_ms();
    let chunk = "x".repeat(4000);
    for _ in 0..5 {
        injector.record_output(&chunk, now);
    }
    let len_bytes: usize = injector
        .recent_output
        .iter()
        .map(|c| c.len_utf8())
        .sum();
    assert!(len_bytes <= 10000);
    // multi-byte output is trimmed on character boundaries
    let wide = "界".repeat(5000);
    injector.record_output(&wide, now);
    let len_bytes: usize = injector
        .recent_output
        .iter()
        .map(|c| c.len_utf8())
        .sum();
    assert!(len_bytes <= 10000);
    assert!(injector.recent_output.iter().all(|&c| c == '界'));
}

#[test]
fn test_injection_step_decisions() {
    let msg = QueuedMessage::new("m1".to_string(), "A".to_string(), "hi".to_string(), 0);
    assert!(matches!(
        injection_step(&msg, InjectOutcome::WriteOk, 3),
        InjectAction::Deliver
    ));
    assert!(matches!(
        injection_step(&msg, InjectOutcome::VerifyFailed, 3),
        InjectAction::RetryAfterDelay
    ));
    let mut exhausted = QueuedMessage::new("m2".to_string(), "A".to_string(), "hi".to_string(), 0);
    exhausted.retries = 3;
    match injection_step(&exhausted, InjectOutcome::VerifyFailed, 3) {
        InjectAction::Fail { error } => {
            assert_eq!(error, "Verification failed after retries");
        }
        other => panic!("expected failure, got {:?}", other),
    }
    match injection_step(
        &msg,
        InjectOutcome::WriteError {
            message: "PTY channel closed".to_string(),
        },
        3,
    ) {
        InjectAction::Fail { error } => {
            assert_eq!(error, "PTY channel closed");
        }
        other => panic!("expected failure, got {:?}", other),
    }
}
