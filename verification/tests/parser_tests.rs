//! Parser tests: legacy command forms, prompt and ready detection, the
//! header and continuity file formats, shell-escape sanitization, and
//! file-backed message handling through parsed file outcomes.

use relay_pty::parser::{
    parse_continuity_format, parse_file_content, parse_header_format, sanitize_for_injection,
    sanitize_json_from_shell, FileOutcome, OutputParser,
};

#[test]
fn test_parse_single_line() {
    let mut parser = OutputParser::new("Alice".to_string(), r"^> $");
    let result = parser.process(b"->relay:Bob Hello Bob!\n");

    assert_eq!(result.commands.len(), 1);
    assert_eq!(result.commands[0].to, "Bob");
    assert_eq!(result.commands[0].body, "Hello Bob!");
}

#[test]
fn test_parse_fenced() {
    let mut parser = OutputParser::new("Alice".to_string(), r"^> $");
    let result = parser.process(b"->relay:Bob <<<\nHello Bob!\nMulti-line message.>>>\n");

    assert_eq!(result.commands.len(), 1);
    assert_eq!(result.commands[0].to, "Bob");
    assert!(result.commands[0].body.contains("Multi-line"));
}

#[test]
fn test_parse_with_thread() {
    let mut parser = OutputParser::new("Alice".to_string(), r"^> $");
    let result = parser.process(b"->relay:Bob [thread:test-123] <<<Hello>>>\n");

    assert_eq!(result.commands.len(), 1);
    assert_eq!(result.commands[0].to, "Bob");
    assert!(result.commands[0].to.contains("Bob"));
}

#[test]
fn test_prompt_detection() {
    let mut parser = OutputParser::new("Alice".to_string(), r"^> $");
    let result = parser.process(b"Some output\n> ");

    assert!(result.is_idle);
}

#[test]
fn test_strip_ansi() {
    let input = "\x1B[31mRed text\x1B[0m";
    let output = relay_pty::ansi::strip_ansi(input);
    assert_eq!(output, "Red text");
}

#[test]
fn test_ready_signal() {
    let mut parser = OutputParser::new("Alice".to_string(), r"^> $");
    let result = parser.process(b"Working...\n->pty:ready\n");

    assert!(result.ready_signal);
    assert!(result.is_idle);
}

#[test]
fn test_file_relay_pattern_doesnt_interfere() {
    let mut parser = OutputParser::new("Alice".to_string(), r"^> $");
    let input = "Let me explain how file-based relay works: you write to a file.\n";
    let result = parser.process(input.as_bytes());

    assert_eq!(result.commands.len(), 0);
}

#[test]
fn test_sanitize_json_from_shell() {
    let input = "{\"body\":\"line1\nline2\"}";
    let expected = "{\"body\":\"line1\\nline2\"}";
    assert_eq!(sanitize_json_from_shell(input), expected);

    let input = "{\"body\":\"Hello\\! World\"}";
    let expected = "{\"body\":\"Hello! World\"}";
    assert_eq!(sanitize_json_from_shell(input), expected);

    let input = r#"{"body":"line1\nline2"}"#;
    let expected = r#"{"body":"line1\nline2"}"#;
    assert_eq!(sanitize_json_from_shell(input), expected);

    let input = "{\"body\":\"Board:\n 1 | 2\n-----\"}";
    let expected = "{\"body\":\"Board:\\n 1 | 2\\n-----\"}";
    assert_eq!(sanitize_json_from_shell(input), expected);
}

#[test]
fn test_parse_header_format_message() {
    let content = "TO: Bob\n\nHello Bob!\nThis is a multi-line message.";
    let msg = parse_header_format(content).unwrap();
    assert_eq!(msg.kind, "message");
    assert_eq!(msg.to, Some("Bob".to_string()));
    assert!(msg.body.as_ref().unwrap().contains("Hello Bob!"));
    assert!(msg.body.as_ref().unwrap().contains("multi-line"));
}

#[test]
fn test_parse_header_format_spawn() {
    let content =
        "KIND: spawn\nNAME: Worker1\nCLI: codex\n\nImplement the auth module\nWith JWT tokens";
    let msg = parse_header_format(content).unwrap();
    assert_eq!(msg.kind, "spawn");
    assert_eq!(msg.name, Some("Worker1".to_string()));
    assert_eq!(msg.cli, Some("codex".to_string()));
    assert!(msg.body.as_ref().unwrap().contains("auth module"));
}

#[test]
fn test_parse_header_format_release() {
    let content = "KIND: release\nNAME: Worker1";
    let msg = parse_header_format(content).unwrap();
    assert_eq!(msg.kind, "release");
    assert_eq!(msg.name, Some("Worker1".to_string()));
}

#[test]
fn test_parse_header_format_with_thread() {
    let content = "TO: Bob\nTHREAD: task-123\n\nMessage with thread";
    let msg = parse_header_format(content).unwrap();
    assert_eq!(msg.to, Some("Bob".to_string()));
    assert_eq!(msg.thread, Some("task-123".to_string()));
}

#[test]
fn test_parse_header_format_defaults_to_message() {
    let content = "TO: Bob\n\nHello there!";
    let msg = parse_header_format(content).unwrap();
    assert_eq!(msg.kind, "message");
    assert_eq!(msg.to, Some("Bob".to_string()));
    assert_eq!(msg.body, Some("Hello there!".to_string()));
}

#[test]
fn test_parse_continuity_format_rejects_invalid_action() {
    let content = "KIND: continuity\nACTION: maybe\n\nNot a valid action";
    let msg = parse_continuity_format(content);
    assert!(msg.is_none());
}

#[test]
fn test_parse_continuity_save_content() {
    let content = "KIND: continuity\nACTION: save\n\nCurrent task: testing continuity parsing.";
    let msg = parse_continuity_format(content).unwrap();
    assert_eq!(msg.action, "save");
    assert!(msg.content.contains("testing continuity parsing"));
}

#[test]
fn test_parse_continuity_load_empty_content() {
    let content = "KIND: continuity\nACTION: load\n";
    let msg = parse_continuity_format(content).unwrap();
    assert_eq!(msg.action, "load");
    assert_eq!(msg.content, "");
}

#[test]
fn test_file_content_header_message() {
    let outcome = parse_file_content("Alice", "TO: Bob\n\nHi there", "->relay-file:msg-001");
    match outcome {
        FileOutcome::Command(cmd) => {
            assert_eq!(cmd.kind, "message");
            assert_eq!(cmd.from, "Alice");
            assert_eq!(cmd.to, "Bob");
            assert_eq!(cmd.body, "Hi there");
            assert_eq!(cmd.raw, "->relay-file:msg-001");
        }
        other => panic!("expected a command, got {:?}", other),
    }
}

#[test]
fn test_file_content_json_message() {
    let json = r#"{"kind":"message","to":"Bob","body":"Hello from file!"}"#;
    let outcome = parse_file_content("Alice", json, "->relay-file:test-msg-001");
    match outcome {
        FileOutcome::Command(cmd) => {
            assert_eq!(cmd.kind, "message");
            assert_eq!(cmd.to, "Bob");
            assert_eq!(cmd.body, "Hello from file!");
        }
        other => panic!("expected a command, got {:?}", other),
    }
}

#[test]
fn test_file_content_json_spawn() {
    let json = r#"{"kind":"spawn","name":"Worker1","cli":"codex","task":"Do the thing"}"#;
    let outcome = parse_file_content("Alice", json, "->relay-file:test-spawn-001");
    match outcome {
        FileOutcome::Command(cmd) => {
            assert_eq!(cmd.kind, "spawn");
            assert_eq!(cmd.spawn_name, Some("Worker1".to_string()));
            assert_eq!(cmd.spawn_cli, Some("codex".to_string()));
            assert_eq!(cmd.spawn_task, Some("Do the thing".to_string()));
        }
        other => panic!("expected a command, got {:?}", other),
    }
}

#[test]
fn test_file_content_json_release() {
    let json = r#"{"kind":"release","name":"Worker1"}"#;
    let outcome = parse_file_content("Alice", json, "->relay-file:test-release-001");
    match outcome {
        FileOutcome::Command(cmd) => {
            assert_eq!(cmd.kind, "release");
            assert_eq!(cmd.release_name, Some("Worker1".to_string()));
        }
        other => panic!("expected a command, got {:?}", other),
    }
}

#[test]
fn test_file_content_json_with_thread() {
    let json = r#"{"kind":"message","to":"Bob","body":"Threaded msg","thread":"task-123"}"#;
    let outcome = parse_file_content("Alice", json, "->relay-file:test-thread-001");
    match outcome {
        FileOutcome::Command(cmd) => {
            assert_eq!(cmd.thread, Some("task-123".to_string()));
        }
        other => panic!("expected a command, got {:?}", other),
    }
}

#[test]
fn test_file_content_json_shell_escapes() {
    let json = "{\"kind\":\"message\",\"to\":\"Bob\",\"body\":\"Hello\\! World\nLine 2\"}";
    let outcome = parse_file_content("Alice", json, "->relay-file:test-shell-001");
    match outcome {
        FileOutcome::Command(cmd) => {
            assert_eq!(cmd.to, "Bob");
            assert!(cmd.body.contains("Hello! World"));
            assert!(cmd.body.contains("Line 2"));
        }
        other => panic!("expected a command, got {:?}", other),
    }
}

#[test]
fn test_file_content_continuity() {
    let content = "KIND: continuity\nACTION: uncertain\n\nAPI rate limit handling unclear.";
    let outcome = parse_file_content("Alice", content, "->relay-file:uncertain");
    match outcome {
        FileOutcome::Continuity(cmd) => {
            assert_eq!(cmd.action, "uncertain");
            assert!(cmd.content.contains("rate limit"));
        }
        other => panic!("expected a continuity command, got {:?}", other),
    }
}

#[test]
fn test_file_content_unparseable() {
    let outcome = parse_file_content("Alice", "not headers, not json", "->relay-file:x");
    assert!(matches!(outcome, FileOutcome::NoCommand));
}

#[test]
fn test_file_relay_flow_with_outcomes() {
    // a trigger in the output asks for the file; the parsed outcome turns
    // into the command and suppresses legacy parsing
    let mut parser =
        OutputParser::with_outbox("Alice".to_string(), r"^> $", "/tmp/obx".to_string());
    let requests = parser.scan_file_requests(b"->relay-file:msg-001\n->relay:Charlie ignored\n");
    assert_eq!(requests.len(), 1);
    assert_eq!(requests[0].id, "msg-001");
    assert_eq!(requests[0].raw, "->relay-file:msg-001");

    let outcome = parse_file_content("Alice", "TO: Bob\n\nHello from file.", &requests[0].raw);
    let (result, processed) = parser.finish_chunk(vec![("msg-001".to_string(), outcome)]);

    assert_eq!(result.commands.len(), 1);
    assert_eq!(result.commands[0].to, "Bob");
    assert_eq!(processed, vec!["msg-001".to_string()]);
}

#[test]
fn test_file_relay_missing_file_no_command() {
    // a trigger with no readable file yields nothing and legacy parsing
    // finds nothing else
    let mut parser =
        OutputParser::with_outbox("Alice".to_string(), r"^> $", "/tmp/obx".to_string());
    let requests = parser.scan_file_requests(b"->relay-file:nonexistent\n");
    assert_eq!(requests.len(), 1);
    let (result, processed) = parser.finish_chunk(vec![(
        "nonexistent".to_string(),
        FileOutcome::NoCommand,
    )]);
    assert_eq!(result.commands.len(), 0);
    assert!(processed.is_empty());
}

#[test]
fn test_parser_spawn_fenced() {
    let mut parser = OutputParser::new("Alice".to_string(), r"^> $");
    let result = parser.process(b"->relay:spawn Worker1 codex <<<Implement the parser>>>\n");
    assert_eq!(result.commands.len(), 1);
    assert_eq!(result.commands[0].kind, "spawn");
    assert_eq!(result.commands[0].spawn_name, Some("Worker1".to_string()));
    assert_eq!(result.commands[0].spawn_cli, Some("codex".to_string()));
    assert_eq!(
        result.commands[0].spawn_task,
        Some("Implement the parser".to_string())
    );
}

#[test]
fn test_parser_spawn_single_quoted() {
    let mut parser = OutputParser::new("Alice".to_string(), r"^> $");
    let result = parser.process(b"->relay:spawn Worker2 codex \"fix the bug\"\n");
    assert_eq!(result.commands.len(), 1);
    assert_eq!(result.commands[0].kind, "spawn");
    assert_eq!(result.commands[0].spawn_name, Some("Worker2".to_string()));
    assert_eq!(result.commands[0].spawn_task, Some("fix the bug".to_string()));
}

#[test]
fn test_parser_release() {
    let mut parser = OutputParser::new("Alice".to_string(), r"^> $");
    let result = parser.process(b"->relay:release Worker1\n");
    assert_eq!(result.commands.len(), 1);
    assert_eq!(result.commands[0].kind, "release");
    assert_eq!(result.commands[0].release_name, Some("Worker1".to_string()));
}

#[test]
fn test_parser_prompt_pattern_matches() {
    let mut parser = OutputParser::new("Alice".to_string(), r"^myprompt$");
    let result = parser.process(b"some output\nmyprompt");
    assert!(result.is_idle);
    let mut parser2 = OutputParser::new("Alice".to_string(), r"^myprompt$");
    let result2 = parser2.process(b"some output\nnot the prompt");
    assert!(!result2.is_idle);
}

#[test]
fn test_parser_invalid_pattern_falls_back() {
    // an uncompilable pattern falls back to the stock prompt pattern
    let mut parser = OutputParser::new("Alice".to_string(), "[");
    let result = parser.process(b"output\n> ");
    assert!(result.is_idle);
}

#[test]
fn test_parser_buffer_accumulates() {
    let mut parser = OutputParser::new("Alice".to_string(), r"^> $");
    parser.process(b"hello ");
    parser.process(b"world");
    assert_eq!(parser.buffer(), "hello world");
}

#[test]
fn test_parser_lossy_decode_replaces_invalid() {
    let mut parser = OutputParser::new("Alice".to_string(), r"^> $");
    parser.process(&[0xff, b'o', b'k']);
    assert_eq!(parser.buffer(), "\u{fffd}ok");
}

#[test]
fn test_parser_truncate_buffer() {
    let mut parser = OutputParser::new("Alice".to_string(), r"^> $");
    parser.process(b"abcdefghij");
    parser.truncate_buffer(4);
    assert_eq!(parser.buffer(), "ghij");
}

#[test]
fn test_sanitize_for_injection_strips_controls() {
    assert_eq!(sanitize_for_injection("a\x07b\x1b[31mc"), "ab[31mc");
    assert_eq!(sanitize_for_injection("keep\nnewline\ttab"), "keep\nnewline\ttab");
}

#[test]
fn test_ansi_strip_idempotent_on_samples() {
    let samples = [
        "\x1B[31mRed\x1B[0m",
        "\x1B]0;title\x07body",
        "plain text",
        "\x1B(Bdesignated",
        "partial\x1B[12",
    ];
    for s in samples {
        let once = relay_pty::ansi::strip_ansi(s);
        let twice = relay_pty::ansi::strip_ansi(&once);
        assert_eq!(once, twice);
    }
}
