//! Supervisor-decision tests: editor-mode detection, UTF-8 boundary cuts,
//! the approval detector and the auto-Enter backoff rule.

use relay_pty::supervisor::{
    cursor_query_present, floor_char_boundary, is_in_editor_mode, mcp_approval_step,
    mcp_prompt_flags, required_silence_ms, should_send_auto_enter,
};

#[test]
fn test_is_in_editor_mode_vim_insert() {
    let output = "Some text\n-- INSERT --\n";
    assert!(is_in_editor_mode(output));

    let output2 = "Some text\n-- INSERT --";
    assert!(is_in_editor_mode(output2));
}

#[test]
fn test_is_in_editor_mode_claude_cli_not_vim() {
    let output = "-- INSERT -- ⏵⏵ bypass permissions on (shift+tab to cycle)";
    assert!(!is_in_editor_mode(output));

    let output2 = "-- NORMAL -- ► some agent CLI text";
    assert!(!is_in_editor_mode(output2));
}

#[test]
fn test_is_in_editor_mode_nano() {
    let output = "  GNU nano 5.8\nFile: test.txt\n^G Get Help  ^O Write Out";
    assert!(is_in_editor_mode(output));
}

#[test]
fn test_is_in_editor_mode_less_pager() {
    let output = "some content\n(END)";
    assert!(is_in_editor_mode(output));

    let output2 = "some content\n--More--";
    assert!(is_in_editor_mode(output2));
}

#[test]
fn test_is_in_editor_mode_git_rebase() {
    let output = "pick abc1234 Initial commit\n# Rebase abc1234..def5678 onto abc1234";
    assert!(is_in_editor_mode(output));
}

#[test]
fn test_is_in_editor_mode_normal_output() {
    let output = "I'll help you with that task. Let me search for the file.";
    assert!(!is_in_editor_mode(output));

    let output2 = "$ ls -la\ntotal 0\n$ ";
    assert!(!is_in_editor_mode(output2));
}

#[test]
fn test_is_in_editor_mode_with_ansi() {
    let output = "\x1b[32mSome text\x1b[0m\n-- INSERT --\n";
    assert!(is_in_editor_mode(output));
}

#[test]
fn test_floor_char_boundary() {
    let s = "Hello 世界";

    assert_eq!(floor_char_boundary(s, 0), 0);
    assert_eq!(floor_char_boundary(s, 6), 6);
    assert_eq!(floor_char_boundary(s, 9), 9);
    assert_eq!(floor_char_boundary(s, 12), 12);

    assert_eq!(floor_char_boundary(s, 7), 6);
    assert_eq!(floor_char_boundary(s, 8), 6);

    assert_eq!(floor_char_boundary(s, 100), 12);
}

#[test]
fn test_cursor_query_detection() {
    assert!(cursor_query_present("before\x1b[6nafter"));
    assert!(cursor_query_present("\x1b[?6n"));
    assert!(!cursor_query_present("plain output"));
}

#[test]
fn test_mcp_prompt_detection_and_step() {
    let (h, a) = mcp_prompt_flags("MCP Server Approval Required\n[a] Approve all servers");
    assert!(h && a);
    let (h2, a2) = mcp_prompt_flags("MCP server approval pending");
    assert!(h2);
    assert!(!a2 || a2); // approve flag depends only on its own substrings
    let (h3, a3) = mcp_prompt_flags("nothing interesting");
    assert!(!h3 && !a3);

    // full match approves at once
    let (approve, since) = mcp_approval_step(true, true, None, 1000, 5000);
    assert!(approve);
    assert_eq!(since, Some(1000));

    // partial match arms the timer, then times out
    let (approve1, since1) = mcp_approval_step(true, false, None, 1000, 5000);
    assert!(!approve1);
    assert_eq!(since1, Some(1000));
    let (approve2, since2) = mcp_approval_step(true, false, since1, 5500, 5000);
    assert!(!approve2);
    assert_eq!(since2, Some(1000));
    let (approve3, _) = mcp_approval_step(true, false, since2, 6000, 5000);
    assert!(approve3);

    // losing the partial match resets the timer
    let (approve4, since4) = mcp_approval_step(false, false, Some(1000), 9000, 5000);
    assert!(!approve4);
    assert_eq!(since4, None);
}

#[test]
fn test_auto_enter_backoff() {
    assert_eq!(required_silence_ms(10000, 0), 10000);
    assert_eq!(required_silence_ms(10000, 1), 15000);
    assert_eq!(required_silence_ms(10000, 2), 25000);
    assert_eq!(required_silence_ms(10000, 3), 40000);
    assert_eq!(required_silence_ms(10000, 4), 60000);
    assert_eq!(required_silence_ms(10000, 9), 60000);

    assert!(should_send_auto_enter(true, 10001, true, true, false, 0, 10000));
    assert!(!should_send_auto_enter(true, 10000, true, true, false, 0, 10000));
    assert!(!should_send_auto_enter(false, 20000, true, true, false, 0, 10000));
    assert!(!should_send_auto_enter(true, 20000, false, true, false, 0, 10000));
    assert!(!should_send_auto_enter(true, 20000, true, false, false, 0, 10000));
    assert!(!should_send_auto_enter(true, 20000, true, true, true, 0, 10000));
    assert!(!should_send_auto_enter(true, 99999999, true, true, false, 5, 10000));
}
