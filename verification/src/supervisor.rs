//! Supervisor-loop decisions: UTF-8-safe buffer cuts, editor-mode
//! detection that gates auto-Enter, the first-run approval detector, the
//! auto-Enter backoff rule and the cursor-query responder test.

use vstd::prelude::*;
use vstd::string::StringSliceAdditionalSpecFns;
use vstd::utf8::is_char_boundary;

use crate::ansi::strip_ansi_spec;
use crate::queue::sat_sub;
use crate::text::{contains_chars, contains_seq, occurs_at, str_to_chars, sub_chars, trim_spec};

verus! {

broadcast use vstd::string::group_string_axioms;

/// The nearest character boundary at or before `index`, or the byte length
/// when `index` lies past the end.
pub fn floor_char_boundary(s: &str, index: usize) -> (r: usize)
    requires
        s.spec_bytes().len() <= usize::MAX,
    ensures
        index >= s.spec_bytes().len() ==> r == s.spec_bytes().len(),
        index < s.spec_bytes().len() ==> {
            &&& r <= index
            &&& is_char_boundary(s.spec_bytes(), r as int)
            &&& forall|j: int| r < j <= index ==> !#[trigger] is_char_boundary(s.spec_bytes(), j)
        },
{
    if index >= s.len() {
        return s.len();
    }
    let mut i = index;
    while i > 0 && !s.is_char_boundary(i)
        invariant
            0 <= i <= index < s.spec_bytes().len(),
            forall|j: int| i < j <= index ==> !#[trigger] is_char_boundary(s.spec_bytes(), j),
        decreases i,
    {
        i -= 1;
    }
    proof {
        if i == 0 {
            vstd::utf8::encode_utf8_valid_utf8(s@);
            vstd::utf8::is_char_boundary_start_end_of_seq(s.spec_bytes());
            assert(is_char_boundary(s.spec_bytes(), 0));
        }
    }
    i
}

/// The largest `j` where `p` occurs in `s`, or `-1`.
pub open spec fn last_occ_at(s: Seq<char>, p: Seq<char>, j: int) -> int
    decreases j + 1
        when j >= -1
{
    if j < 0 {
        -1
    } else if occurs_at(s, p, j) {
        j
    } else {
        last_occ_at(s, p, j - 1)
    }
}

/// The last occurrence of `p` in `s`, or `-1`.
pub open spec fn last_occ(s: Seq<char>, p: Seq<char>) -> int {
    if p.len() > s.len() {
        -1
    } else {
        last_occ_at(s, p, s.len() - p.len())
    }
}

/// Finds the last occurrence of `p` in `v`.
fn find_last_occ(v: &Vec<char>, p: &Vec<char>) -> (r: Option<usize>)
    ensures
        match r {
            Some(j) => last_occ(v@, p@) == j && j + p@.len() <= v@.len(),
            None => last_occ(v@, p@) == -1,
        },
{
    if p.len() > v.len() {
        return None;
    }
    let n = v.len();
    let start = v.len() - p.len();
    let mut j = start;
    loop
        invariant
            0 <= j <= start,
            p@.len() <= v@.len(),
            start == v@.len() - p@.len(),
            last_occ_at(v@, p@, start as int) == last_occ_at(v@, p@, j as int),
        decreases j,
    {
        if crate::text::matches_at(v, p, j) {
            return Some(j);
        }
        if j == 0 {
            proof {
                assert(last_occ_at(v@, p@, -1) == -1);
                assert(last_occ_at(v@, p@, 0) == -1);
            }
            return None;
        }
        j -= 1;
    }
}

/// The last occurrence of `p` in `s` is followed only by whitespace: how a
/// real editor mode line ends, as opposed to a status bar that carries the
/// same words mid-line.
pub open spec fn pattern_ends_line(s: Seq<char>, p: Seq<char>) -> bool {
    let j = last_occ(s, p);
    j >= 0 && trim_spec(trim_of_tail(s, j + p.len() as int)).len() == 0
}

/// The tail of `s` from `k` on, empty when `k` lies outside.
pub open spec fn trim_of_tail(s: Seq<char>, k: int) -> Seq<char> {
    if 0 <= k <= s.len() {
        s.subrange(k, s.len() as int)
    } else {
        Seq::empty()
    }
}

/// Whether the last occurrence of `p` in `v` is followed only by
/// whitespace.
fn check_pattern_ends_line(v: &Vec<char>, p: &Vec<char>) -> (r: bool)
    ensures
        r == pattern_ends_line(v@, p@),
{
    let n = v.len();
    match find_last_occ(v, p) {
        Some(j) => {
            let (lo, hi) = crate::text::trim_chars(v, j + p.len(), n);
            proof {
                assert(trim_of_tail(v@, j + p@.len() as int) =~= v@.subrange(
                    j + p@.len() as int,
                    v@.len() as int,
                ));
            }
            lo == hi
        },
        None => false,
    }
}

/// The window that editor-mode detection looks at: the last 500 characters
/// of the ANSI-stripped output.
pub open spec fn editor_window(s: Seq<char>) -> Seq<char> {
    let clean = strip_ansi_spec(s);
    if clean.len() > 500 {
        clean.subrange(clean.len() - 500, clean.len() as int)
    } else {
        clean
    }
}

/// A status-bar glyph of an agent CLI near a mode indicator means the line
/// is the CLI's own status bar, not an editor.
pub open spec fn has_cli_glyph(w: Seq<char>) -> bool {
    contains_seq(w, seq!['\u{23f5}']) || contains_seq(w, seq!['\u{23f4}']) || contains_seq(
        w,
        seq!['\u{25ba}'],
    ) || contains_seq(w, seq!['\u{25b6}'])
}

/// Editor-mode detection over the window: vim-family mode lines ending the
/// output, nano, emacs, an interactive rebase, or a pager; a CLI status bar
/// showing a mode indicator beside its own glyphs does not count.
pub open spec fn editor_mode_spec(s: Seq<char>) -> bool {
    let w = editor_window(s);
    let cli_bar = has_cli_glyph(w) && (contains_seq(w, "-- INSERT --"@) || contains_seq(
        w,
        "-- NORMAL --"@,
    ) || contains_seq(w, "-- VISUAL --"@));
    if cli_bar {
        false
    } else {
        ||| pattern_ends_line(w, "-- INSERT --"@)
        ||| pattern_ends_line(w, "-- REPLACE --"@)
        ||| pattern_ends_line(w, "-- VISUAL --"@)
        ||| pattern_ends_line(w, "-- VISUAL LINE --"@)
        ||| pattern_ends_line(w, "-- VISUAL BLOCK --"@)
        ||| pattern_ends_line(w, "-- SELECT --"@)
        ||| pattern_ends_line(w, "-- TERMINAL --"@)
        ||| contains_seq(w, "GNU nano"@)
        ||| contains_seq(w, "^G Get Help"@)
        ||| contains_seq(w, "*** Emacs"@)
        ||| contains_seq(w, "M-x "@)
        ||| (contains_seq(w, "pick "@) && contains_seq(w, "# Rebase"@))
        ||| contains_seq(w, "(END)"@)
        ||| contains_seq(w, "--More--"@)
    }
}

/// Detects whether the agent has handed the terminal to a full-screen
/// editor or pager, in which case auto-Enter must stay away.
pub fn is_in_editor_mode(recent_output: &str) -> (r: bool)
    ensures
        r == editor_mode_spec(recent_output@),
{
    let raw = str_to_chars(recent_output);
    let clean = crate::ansi::strip_ansi_chars(&raw);
    let w = if clean.len() > 500 {
        sub_chars(&clean, clean.len() - 500, clean.len())
    } else {
        clean
    };
    proof {
        assert(w@ == editor_window(recent_output@));
    }
    let mut glyph: Vec<char> = Vec::new();
    glyph.push('\u{23f5}');
    let mut glyph2: Vec<char> = Vec::new();
    glyph2.push('\u{23f4}');
    let mut glyph3: Vec<char> = Vec::new();
    glyph3.push('\u{25ba}');
    let mut glyph4: Vec<char> = Vec::new();
    glyph4.push('\u{25b6}');
    proof {
        assert(glyph@ =~= seq!['\u{23f5}']);
        assert(glyph2@ =~= seq!['\u{23f4}']);
        assert(glyph3@ =~= seq!['\u{25ba}']);
        assert(glyph4@ =~= seq!['\u{25b6}']);
    }
    let has_glyph = contains_chars(&w, &glyph) || contains_chars(&w, &glyph2) || contains_chars(
        &w,
        &glyph3,
    ) || contains_chars(&w, &glyph4);
    let insert_p = str_to_chars("-- INSERT --");
    let normal_p = str_to_chars("-- NORMAL --");
    let visual_p = str_to_chars("-- VISUAL --");
    if has_glyph && (contains_chars(&w, &insert_p) || contains_chars(&w, &normal_p)
        || contains_chars(&w, &visual_p)) {
        return false;
    }
    let replace_p = str_to_chars("-- REPLACE --");
    let vline_p = str_to_chars("-- VISUAL LINE --");
    let vblock_p = str_to_chars("-- VISUAL BLOCK --");
    let select_p = str_to_chars("-- SELECT --");
    let terminal_p = str_to_chars("-- TERMINAL --");
    if check_pattern_ends_line(&w, &insert_p) || check_pattern_ends_line(&w, &replace_p)
        || check_pattern_ends_line(&w, &visual_p) || check_pattern_ends_line(&w, &vline_p)
        || check_pattern_ends_line(&w, &vblock_p) || check_pattern_ends_line(&w, &select_p)
        || check_pattern_ends_line(&w, &terminal_p) {
        return true;
    }
    let nano1 = str_to_chars("GNU nano");
    let nano2 = str_to_chars("^G Get Help");
    let emacs1 = str_to_chars("*** Emacs");
    let emacs2 = str_to_chars("M-x ");
    let pick = str_to_chars("pick ");
    let rebase = str_to_chars("# Rebase");
    let pager1 = str_to_chars("(END)");
    let pager2 = str_to_chars("--More--");
    contains_chars(&w, &nano1) || contains_chars(&w, &nano2) || contains_chars(&w, &emacs1)
        || contains_chars(&w, &emacs2) || (contains_chars(&w, &pick) && contains_chars(
        &w,
        &rebase,
    )) || contains_chars(&w, &pager1) || contains_chars(&w, &pager2)
}

/// The first-run approval prompt's header is on screen.
pub open spec fn mcp_header_present(clean: Seq<char>) -> bool {
    contains_seq(clean, "MCP Server Approval Required"@) || contains_seq(
        clean,
        "MCP server approval"@,
    )
}

/// The approve-all option of the first-run approval prompt is on screen.
pub open spec fn mcp_approve_present(clean: Seq<char>) -> bool {
    contains_seq(clean, "[a] Approve all servers"@) || contains_seq(clean, "Approve all"@)
        || contains_seq(clean, "[a]"@)
}

/// Looks for the approval prompt's header and approve-all option in
/// ANSI-stripped output.
pub fn mcp_prompt_flags(clean: &str) -> (r: (bool, bool))
    ensures
        r.0 == mcp_header_present(clean@),
        r.1 == mcp_approve_present(clean@),
{
    let v = str_to_chars(clean);
    let h1 = str_to_chars("MCP Server Approval Required");
    let h2 = str_to_chars("MCP server approval");
    let a1 = str_to_chars("[a] Approve all servers");
    let a2 = str_to_chars("Approve all");
    let a3 = str_to_chars("[a]");
    let has_header = contains_chars(&v, &h1) || contains_chars(&v, &h2);
    let has_approve = contains_chars(&v, &a1) || contains_chars(&v, &a2) || contains_chars(
        &v,
        &a3,
    );
    (has_header, has_approve)
}

/// One step of the approval detector: approve on a full match, or when a
/// partial match has been continuously on screen for the timeout; the
/// returned instant tracks since when a partial match has been visible.
pub fn mcp_approval_step(
    has_header: bool,
    has_approve: bool,
    partial_since: Option<u64>,
    now_ms: u64,
    timeout_ms: u64,
) -> (r: (bool, Option<u64>))
    ensures
        ({
            let full = has_header && has_approve;
            let partial = has_header || has_approve;
            let timed_out = partial && (partial_since matches Some(t) && sat_sub(now_ms, t)
                >= timeout_ms);
            &&& r.0 == (full || timed_out)
            &&& r.1 == (if !partial {
                None::<u64>
            } else if partial_since is None {
                Some(now_ms)
            } else {
                partial_since
            })
        }),
{
    let full = has_header && has_approve;
    let partial = has_header || has_approve;
    let (timed_out, since) = if !partial {
        (false, None)
    } else {
        match partial_since {
            None => (false, Some(now_ms)),
            Some(t) => (now_ms.saturating_sub(t) >= timeout_ms, Some(t)),
        }
    };
    (full || timed_out, since)
}

/// The silence auto-Enter demands before attempt `retry_count`: the base
/// timeout scaled by 1, 1.5, 2.5, 4 and 6 across attempts.
pub open spec fn required_silence_spec(base_ms: u64, retry_count: u32) -> int {
    let tenths: int = if retry_count == 0 {
        10
    } else if retry_count == 1 {
        15
    } else if retry_count == 2 {
        25
    } else if retry_count == 3 {
        40
    } else {
        60
    };
    base_ms * tenths / 10
}

/// Computes the backoff-scaled silence requirement.
pub fn required_silence_ms(base_ms: u64, retry_count: u32) -> (r: u64)
    requires
        base_ms <= 0xffff_ffff_ffff,
    ensures
        r == required_silence_spec(base_ms, retry_count),
{
    let tenths: u64 = if retry_count == 0 {
        10
    } else if retry_count == 1 {
        15
    } else if retry_count == 2 {
        25
    } else if retry_count == 3 {
        40
    } else {
        60
    };
    (base_ms * tenths) / 10
}

/// Whether to send a recovery carriage return: the agent is idle, has been
/// silent past the backoff-scaled timeout, received an injection recently,
/// the cooldown has passed, no editor holds the terminal, and attempts
/// remain.
pub fn should_send_auto_enter(
    idle: bool,
    silence_ms: u64,
    had_recent_injection: bool,
    cooldown_ok: bool,
    in_editor: bool,
    retry_count: u32,
    base_ms: u64,
) -> (r: bool)
    requires
        base_ms <= 0xffff_ffff_ffff,
    ensures
        r == (idle && silence_ms > required_silence_spec(base_ms, retry_count)
            && had_recent_injection && cooldown_ok && !in_editor && retry_count < 5),
{
    let required = required_silence_ms(base_ms, retry_count);
    idle && silence_ms > required && had_recent_injection && cooldown_ok && !in_editor
        && retry_count < 5
}

/// A Device Status Report query is in the chunk: the CLI is waiting for a
/// cursor-position reply.
pub open spec fn cursor_query_spec(s: Seq<char>) -> bool {
    contains_seq(s, "\u{1b}[6n"@) || contains_seq(s, "\u{1b}[?6n"@)
}

/// Detects a cursor-position query in raw output.
pub fn cursor_query_present(text: &str) -> (r: bool)
    ensures
        r == cursor_query_spec(text@),
{
    let v = str_to_chars(text);
    let q1 = str_to_chars("\u{1b}[6n");
    let q2 = str_to_chars("\u{1b}[?6n");
    contains_chars(&v, &q1) || contains_chars(&v, &q2)
}

} // verus!
