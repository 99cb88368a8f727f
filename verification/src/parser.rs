//! Output parsing: the header and continuity file formats, shell-escape
//! sanitization of JSON written by shells, and control-character filtering
//! for injected text.

use vstd::prelude::*;

use crate::protocol::{ContinuityCommand, ParsedRelayCommand};
use crate::text::{
    chars_eq, chars_to_string, find_char, find_occ_from, first_char, first_occ_from,
    id_run_end, lemma_first_occ_from, occurs_at, scan_space_run, scan_word_run, lemma_run_bounds, lower_range, nonspace_run_end,
    space_run_end, split_lines, split_lines_spec, starts_with, str_to_chars, sub_chars,
    to_lower_seq, to_upper_seq, trim_chars, trim_spec, upper_range, word_run_end,
};

verus! {

broadcast use vstd::string::group_string_axioms;

/// Result of feeding one output chunk to the parser.
#[derive(Debug)]
pub struct ParseResult {
    /// Parsed relay commands.
    pub commands: Vec<ParsedRelayCommand>,
    /// Parsed continuity commands.
    pub continuity_commands: Vec<ContinuityCommand>,
    /// Whether the agent appears idle.
    pub is_idle: bool,
    /// Whether the explicit ready signal was seen.
    pub ready_signal: bool,
}

/// The view of an optional owned string.
pub open spec fn opt_view(o: Option<String>) -> Option<Seq<char>> {
    match o {
        Some(s) => Some(s@),
        None => None,
    }
}

/// The view of an optional character vector.
pub open spec fn optv(o: Option<Vec<char>>) -> Option<Seq<char>> {
    match o {
        Some(v) => Some(v@),
        None => None,
    }
}

/// Header fields accumulated while reading a header block.
pub struct HeaderFields {
    /// Lowercased `KIND` value; empty until seen.
    pub kind: Seq<char>,
    /// `TO` value.
    pub to: Option<Seq<char>>,
    /// `NAME` value.
    pub name: Option<Seq<char>>,
    /// `CLI` value.
    pub cli: Option<Seq<char>>,
    /// `THREAD` value.
    pub thread: Option<Seq<char>>,
}

/// No header seen yet.
pub open spec fn header_init() -> HeaderFields {
    HeaderFields { kind: Seq::empty(), to: None, name: None, cli: None, thread: None }
}

/// One header line applied to the accumulated fields: blank lines and lines
/// without a colon change nothing; otherwise the uppercased key before the
/// first colon selects the field and the trimmed value fills it, later
/// lines overriding earlier ones; unknown keys are ignored.
pub open spec fn header_step(acc: HeaderFields, line: Seq<char>) -> HeaderFields {
    let l = trim_spec(line);
    if l.len() == 0 {
        acc
    } else {
        let ci = first_char(l, ':');
        if ci >= l.len() {
            acc
        } else {
            let key = to_upper_seq(trim_spec(l.subrange(0, ci)));
            let value = trim_spec(l.subrange(ci + 1, l.len() as int));
            if key == "TO"@ {
                HeaderFields { to: Some(value), ..acc }
            } else if key == "KIND"@ {
                HeaderFields { kind: to_lower_seq(value), ..acc }
            } else if key == "NAME"@ {
                HeaderFields { name: Some(value), ..acc }
            } else if key == "CLI"@ {
                HeaderFields { cli: Some(value), ..acc }
            } else if key == "THREAD"@ {
                HeaderFields { thread: Some(value), ..acc }
            } else {
                acc
            }
        }
    }
}

/// The first `i` header lines folded over `header_step`.
pub open spec fn fold_headers(lines: Seq<Seq<char>>, i: int) -> HeaderFields
    decreases i
        when i >= 0
{
    if i <= 0 {
        header_init()
    } else {
        header_step(fold_headers(lines, i - 1), lines[i - 1])
    }
}

/// A fully parsed header-format message.
pub struct HeaderMsgSpec {
    /// Message kind, never empty.
    pub kind: Seq<char>,
    /// Target agent.
    pub to: Option<Seq<char>>,
    /// Trimmed body after the blank line, when one exists.
    pub body: Option<Seq<char>>,
    /// Agent name for spawn and release.
    pub name: Option<Seq<char>>,
    /// CLI for spawn.
    pub cli: Option<Seq<char>>,
    /// Thread identifier.
    pub thread: Option<Seq<char>>,
}

/// What `parse_header_format` returns: the content splits at the first
/// blank line into headers and body; headers fold over `header_step`; a
/// missing `KIND` defaults to `message` when `TO` is present; without a
/// kind the content is not a header-format message.
pub open spec fn parse_header_spec(s: Seq<char>) -> Option<HeaderMsgSpec> {
    let i = first_occ_from(s, "\n\n"@, 0);
    let headers = if i >= 0 {
        s.subrange(0, i)
    } else {
        s
    };
    let body = if i >= 0 {
        Some(trim_spec(s.subrange(i + 2, s.len() as int)))
    } else {
        None
    };
    let lines = split_lines_spec(headers);
    let f = fold_headers(lines, lines.len() as int);
    let kind = if f.kind.len() == 0 && f.to is Some {
        "message"@
    } else {
        f.kind
    };
    if kind.len() == 0 {
        None
    } else {
        Some(
            HeaderMsgSpec {
                kind,
                to: f.to,
                body,
                name: f.name,
                cli: f.cli,
                thread: f.thread,
            },
        )
    }
}

/// Structured relay message parsed from a file body, in the header format
/// or its JSON fallback.
#[derive(Debug, Clone, PartialEq)]
pub struct RelayMessage {
    /// Message kind: `message`, `spawn` or `release`.
    pub kind: String,
    /// Target agent, for messages.
    pub to: Option<String>,
    /// Message body, or the task for spawn.
    pub body: Option<String>,
    /// Agent name, for spawn and release.
    pub name: Option<String>,
    /// CLI to use, for spawn.
    pub cli: Option<String>,
    /// Optional thread identifier.
    pub thread: Option<String>,
}

/// `r` carries exactly the fields of the parsed header message `m`.
pub open spec fn relay_message_matches(r: RelayMessage, m: HeaderMsgSpec) -> bool {
    &&& r.kind@ == m.kind
    &&& opt_view(r.to) == m.to
    &&& opt_view(r.body) == m.body
    &&& opt_view(r.name) == m.name
    &&& opt_view(r.cli) == m.cli
    &&& opt_view(r.thread) == m.thread
}

/// Folds the header lines of `lines`, returning the accumulated fields as
/// owned values.
fn run_header_fold(lines: &Vec<Vec<char>>) -> (r: (
    Vec<char>,
    Option<Vec<char>>,
    Option<Vec<char>>,
    Option<Vec<char>>,
    Option<Vec<char>>,
))
    ensures
        ({
            let f = fold_headers(lines.deep_view(), lines.deep_view().len() as int);
            &&& r.0@ == f.kind
            &&& optv(r.1) == f.to
            &&& optv(r.2) == f.name
            &&& optv(r.3) == f.cli
            &&& optv(r.4) == f.thread
        }),
{
    let key_to = str_to_chars("TO");
    let key_kind = str_to_chars("KIND");
    let key_name = str_to_chars("NAME");
    let key_cli = str_to_chars("CLI");
    let key_thread = str_to_chars("THREAD");
    let mut kind: Vec<char> = Vec::new();
    let mut to: Option<Vec<char>> = None;
    let mut name: Option<Vec<char>> = None;
    let mut cli: Option<Vec<char>> = None;
    let mut thread: Option<Vec<char>> = None;
    let mut li: usize = 0;
    while li < lines.len()
        invariant
            0 <= li <= lines@.len(),
            lines@.len() == lines.deep_view().len(),
            key_to@ == "TO"@,
            key_kind@ == "KIND"@,
            key_name@ == "NAME"@,
            key_cli@ == "CLI"@,
            key_thread@ == "THREAD"@,
            ({
                let f = fold_headers(lines.deep_view(), li as int);
                &&& kind@ == f.kind
                &&& optv(to) == f.to
                &&& optv(name) == f.name
                &&& optv(cli) == f.cli
                &&& optv(thread) == f.thread
            }),
        decreases lines@.len() - li,
    {
        let line = &lines[li];
        let ghost lv = lines.deep_view()[li as int];
        proof {
            assert(line.deep_view() =~= line@);
            assert(lv == line@);
            assert(line@.subrange(0, line@.len() as int) =~= line@);
        }
        let (lo, hi) = trim_chars(line, 0, line.len());
        let ghost l = trim_spec(lv);
        proof {
            assert(l =~= lv.subrange(lo as int, hi as int));
        }
        if lo < hi {
            let ci = find_char(line, lo, hi, ':');
            proof {
                assert(lv.subrange(lo as int, hi as int).subrange(0, (ci - lo) as int)
                    =~= lv.subrange(lo as int, ci as int));
            }
            if ci < hi {
                proof {
                    assert(lv.subrange(lo as int, hi as int).subrange(
                        ci - lo + 1,
                        (hi - lo) as int,
                    ) =~= lv.subrange(ci + 1, hi as int));
                }
                let (klo, khi) = trim_chars(line, lo, ci);
                let key = upper_range(line, klo, khi);
                proof {
                    assert(key@ == to_upper_seq(trim_spec(l.subrange(0, ci - lo))));
                }
                let (vlo, vhi) = trim_chars(line, ci + 1, hi);
                let value = sub_chars(line, vlo, vhi);
                proof {
                    assert(value@ == trim_spec(l.subrange(ci - lo + 1, l.len() as int)));
                }
                if chars_eq(&key, &key_to) {
                    to = Some(value);
                } else if chars_eq(&key, &key_kind) {
                    kind = lower_range(&value, 0, value.len());
                    proof {
                        assert(value@.subrange(0, value@.len() as int) =~= value@);
                    }
                } else if chars_eq(&key, &key_name) {
                    name = Some(value);
                } else if chars_eq(&key, &key_cli) {
                    cli = Some(value);
                } else if chars_eq(&key, &key_thread) {
                    thread = Some(value);
                }
            }
        }
        li += 1;
    }
    (kind, to, name, cli, thread)
}

/// Splits content at the first blank line: the header region and, when a
/// blank line exists, the trimmed body.
fn split_blank(v: &Vec<char>) -> (r: (Vec<Vec<char>>, Option<Vec<char>>))
    ensures
        ({
            let i = first_occ_from(v@, "\n\n"@, 0);
            let headers = if i >= 0 {
                v@.subrange(0, i)
            } else {
                v@
            };
            &&& r.0.deep_view() == split_lines_spec(headers)
            &&& optv(r.1) == (if i >= 0 {
                Some(trim_spec(v@.subrange(i + 2, v@.len() as int)))
            } else {
                None::<Seq<char>>
            })
        }),
{
    let sep = str_to_chars("\n\n");
    proof {
        reveal_strlit("\n\n");
        assert(sep@.len() == 2);
    }
    let occ = find_occ_from(v, &sep, 0);
    match occ {
        Some(i) => {
            let n = v.len();
            proof {
                assert(i + 2 <= v@.len());
            }
            let headers = sub_chars(v, 0, i);
            let (blo, bhi) = trim_chars(v, i + 2, n);
            let body = sub_chars(v, blo, bhi);
            proof {
                assert(v@.subrange(i + 2, v@.len() as int) =~= v@.subrange(
                    i + 2,
                    v@.len() as int,
                ));
            }
            let lines = split_lines(&headers);
            (lines, Some(body))
        },
        None => {
            let lines = split_lines(v);
            proof {
                assert(v@.subrange(0, v@.len() as int) =~= v@);
            }
            (lines, None)
        },
    }
}

/// Parses the simple header format: `TO`, `KIND`, `NAME`, `CLI`, `THREAD`
/// headers up to the first blank line, then a free-form body. `KIND`
/// defaults to `message` when `TO` is present.
pub fn parse_header_format(content: &str) -> (r: Option<RelayMessage>)
    ensures
        match parse_header_spec(content@) {
            None => r is None,
            Some(m) => r matches Some(x) && relay_message_matches(x, m),
        },
{
    let v = str_to_chars(content);
    let (lines, body) = split_blank(&v);
    let (kind, to, name, cli, thread) = run_header_fold(&lines);
    let msg_kind = str_to_chars("message");
    let final_kind = if kind.len() == 0 && to.is_some() {
        msg_kind
    } else {
        kind
    };
    if final_kind.len() == 0 {
        return None;
    }
    let r = RelayMessage {
        kind: chars_to_string(&final_kind),
        to: opt_chars_to_string(to),
        body: opt_chars_to_string(body),
        name: opt_chars_to_string(name),
        cli: opt_chars_to_string(cli),
        thread: opt_chars_to_string(thread),
    };
    Some(r)
}

/// Converts an optional character vector to an optional string.
fn opt_chars_to_string(o: Option<Vec<char>>) -> (r: Option<String>)
    ensures
        opt_view(r) == optv(o),
{
    match o {
        Some(v) => Some(chars_to_string(&v)),
        None => None,
    }
}

/// The JSON escapes that stay untouched by shell sanitization.
pub open spec fn is_json_escape(c: char) -> bool {
    c == '"' || c == '\\' || c == '/' || c == 'b' || c == 'f' || c == 'n' || c == 'r' || c == 't'
        || c == 'u'
}

/// The shell metacharacters whose backslash escape is dropped.
pub open spec fn is_shell_meta(c: char) -> bool {
    c == '!' || c == '[' || c == ']' || c == '(' || c == ')' || c == '{' || c == '}' || c == '$'
        || c == '`' || c == '\'' || c == ' ' || c == '*' || c == '?' || c == '#' || c == '~'
        || c == '=' || c == '%' || c == '^' || c == '&' || c == ';' || c == '|' || c == '<'
        || c == '>'
}

/// Shell-escape sanitization from position `i` on, inside or outside a JSON
/// string as `in_str` says: quotes toggle the string state; inside a
/// string, backslashes before valid JSON escapes pass through, backslashes
/// before shell metacharacters are dropped, and literal newlines, carriage
/// returns and tabs become their escape forms.
pub open spec fn sanitize_from(s: Seq<char>, i: int, in_str: bool) -> Seq<char>
    decreases s.len() - i
        when i >= 0
{
    if i < 0 || i >= s.len() {
        Seq::<char>::empty()
    } else {
        let c = s[i];
        if c == '"' {
            seq!['"'] + sanitize_from(s, i + 1, !in_str)
        } else if c == '\\' && in_str {
            if i + 1 < s.len() {
                let n = s[i + 1];
                if is_json_escape(n) {
                    seq!['\\'] + sanitize_from(s, i + 1, in_str)
                } else if is_shell_meta(n) {
                    seq![n] + sanitize_from(s, i + 2, in_str)
                } else {
                    seq!['\\'] + sanitize_from(s, i + 1, in_str)
                }
            } else {
                seq!['\\'] + sanitize_from(s, i + 1, in_str)
            }
        } else if c == '\n' && in_str {
            seq!['\\', 'n'] + sanitize_from(s, i + 1, in_str)
        } else if c == '\r' && in_str {
            seq!['\\', 'r'] + sanitize_from(s, i + 1, in_str)
        } else if c == '\t' && in_str {
            seq!['\\', 't'] + sanitize_from(s, i + 1, in_str)
        } else {
            seq![c] + sanitize_from(s, i + 1, in_str)
        }
    }
}

/// Executable test matching `is_json_escape`.
fn json_escape_char(c: char) -> (r: bool)
    ensures
        r == is_json_escape(c),
{
    c == '"' || c == '\\' || c == '/' || c == 'b' || c == 'f' || c == 'n' || c == 'r' || c == 't'
        || c == 'u'
}

/// Executable test matching `is_shell_meta`.
fn shell_meta_char(c: char) -> (r: bool)
    ensures
        r == is_shell_meta(c),
{
    c == '!' || c == '[' || c == ']' || c == '(' || c == ')' || c == '{' || c == '}' || c == '$'
        || c == '`' || c == '\'' || c == ' ' || c == '*' || c == '?' || c == '#' || c == '~'
        || c == '=' || c == '%' || c == '^' || c == '&' || c == ';' || c == '|' || c == '<'
        || c == '>'
}

/// Repairs JSON written by shell commands: literal newlines, carriage
/// returns and tabs inside strings become escapes, and backslash escapes of
/// shell metacharacters lose the backslash.
pub fn sanitize_json_from_shell(json: &str) -> (r: String)
    ensures
        r@ == sanitize_from(json@, 0, false),
{
    let v = str_to_chars(json);
    let mut out: Vec<char> = Vec::new();
    let mut i: usize = 0;
    let mut in_str = false;
    while i < v.len()
        invariant
            0 <= i <= v@.len(),
            sanitize_from(v@, 0, false) =~= out@ + sanitize_from(v@, i as int, in_str),
        decreases v@.len() - i,
    {
        let c = v[i];
        if c == '"' {
            out.push('"');
            in_str = !in_str;
            i += 1;
        } else if c == '\\' && in_str {
            if i + 1 < v.len() {
                let n = v[i + 1];
                if json_escape_char(n) {
                    out.push('\\');
                    i += 1;
                } else if shell_meta_char(n) {
                    out.push(n);
                    i += 2;
                } else {
                    out.push('\\');
                    i += 1;
                }
            } else {
                out.push('\\');
                i += 1;
            }
        } else if c == '\n' && in_str {
            out.push('\\');
            out.push('n');
            i += 1;
        } else if c == '\r' && in_str {
            out.push('\\');
            out.push('r');
            i += 1;
        } else if c == '\t' && in_str {
            out.push('\\');
            out.push('t');
            i += 1;
        } else {
            out.push(c);
            i += 1;
        }
    }
    proof {
        assert(out@ =~= sanitize_from(v@, 0, false));
    }
    chars_to_string(&out)
}

/// A control character, apart from newline and tab, is removed from
/// injected text.
pub open spec fn is_control_char(c: char) -> bool {
    (c as u32) < 0x20 || (0x7f <= (c as u32) && (c as u32) <= 0x9f)
}

/// Whether a character survives injection sanitization.
pub open spec fn keeps_char(c: char) -> bool {
    !is_control_char(c) || c == '\n' || c == '\t'
}

/// The characters of `s` that survive injection sanitization, in order.
pub open spec fn sanitize_injection_spec(s: Seq<char>) -> Seq<char>
    decreases s.len(),
{
    if s.len() == 0 {
        s
    } else {
        let rest = sanitize_injection_spec(s.drop_last());
        if keeps_char(s.last()) {
            rest.push(s.last())
        } else {
            rest
        }
    }
}

/// Removes control characters from text to be injected, keeping newlines
/// and tabs.
pub fn sanitize_for_injection(text: &str) -> (r: String)
    ensures
        r@ == sanitize_injection_spec(text@),
{
    let v = str_to_chars(text);
    let mut out: Vec<char> = Vec::new();
    let mut i: usize = 0;
    while i < v.len()
        invariant
            0 <= i <= v@.len(),
            out@ == sanitize_injection_spec(v@.subrange(0, i as int)),
        decreases v@.len() - i,
    {
        proof {
            assert(v@.subrange(0, i + 1).drop_last() =~= v@.subrange(0, i as int));
        }
        let c = v[i];
        let u = c as u32;
        let control = u < 0x20 || (0x7f <= u && u <= 0x9f);
        if !control || c == '\n' || c == '\t' {
            out.push(c);
        }
        i += 1;
    }
    proof {
        assert(v@.subrange(0, v@.len() as int) =~= v@);
    }
    chars_to_string(&out)
}

/// Structured continuity message parsed from the header format.
#[derive(Debug, Clone, PartialEq)]
pub struct ContinuityMessage {
    /// Action: `save`, `load` or `uncertain`.
    pub action: String,
    /// Content body.
    pub content: String,
}

/// What `parse_continuity_format` returns: a header block whose `KIND` is
/// `continuity` and whose `ACTION` is one of `save`, `load` and
/// `uncertain`; the content is the trimmed body, or empty without one.
pub open spec fn parse_continuity_spec(s: Seq<char>) -> Option<(Seq<char>, Seq<char>)> {
    let i = first_occ_from(s, "\n\n"@, 0);
    let headers = if i >= 0 {
        s.subrange(0, i)
    } else {
        s
    };
    let body = if i >= 0 {
        trim_spec(s.subrange(i + 2, s.len() as int))
    } else {
        Seq::empty()
    };
    let lines = split_lines_spec(headers);
    let f = fold_continuity(lines, lines.len() as int);
    if f.0 != Some("continuity"@) {
        None
    } else if f.1 == "save"@ || f.1 == "load"@ || f.1 == "uncertain"@ {
        Some((f.1, body))
    } else {
        None
    }
}

/// One continuity header line: `KIND` and `ACTION` values, lowercased.
pub open spec fn continuity_step(acc: (Option<Seq<char>>, Seq<char>), line: Seq<char>) -> (
    Option<Seq<char>>,
    Seq<char>,
) {
    let l = trim_spec(line);
    if l.len() == 0 {
        acc
    } else {
        let ci = first_char(l, ':');
        if ci >= l.len() {
            acc
        } else {
            let key = to_upper_seq(trim_spec(l.subrange(0, ci)));
            let value = trim_spec(l.subrange(ci + 1, l.len() as int));
            if key == "KIND"@ {
                (Some(to_lower_seq(value)), acc.1)
            } else if key == "ACTION"@ {
                (acc.0, to_lower_seq(value))
            } else {
                acc
            }
        }
    }
}

/// The first `i` continuity header lines folded over `continuity_step`.
pub open spec fn fold_continuity(lines: Seq<Seq<char>>, i: int) -> (Option<Seq<char>>, Seq<char>)
    decreases i
        when i >= 0
{
    if i <= 0 {
        (None, Seq::empty())
    } else {
        continuity_step(fold_continuity(lines, i - 1), lines[i - 1])
    }
}

/// Parses the continuity header format: `KIND: continuity` with an
/// `ACTION` of `save`, `load` or `uncertain`, then an optional body.
pub fn parse_continuity_format(content: &str) -> (r: Option<ContinuityMessage>)
    ensures
        match parse_continuity_spec(content@) {
            None => r is None,
            Some((action, body)) => r matches Some(m) && m.action@ == action && m.content@
                == body,
        },
{
    let v = str_to_chars(content);
    let (lines, body) = split_blank(&v);
    let key_kind = str_to_chars("KIND");
    let key_action = str_to_chars("ACTION");
    let mut kind: Option<Vec<char>> = None;
    let mut action: Vec<char> = Vec::new();
    let mut li: usize = 0;
    while li < lines.len()
        invariant
            0 <= li <= lines@.len(),
            lines@.len() == lines.deep_view().len(),
            key_kind@ == "KIND"@,
            key_action@ == "ACTION"@,
            ({
                let f = fold_continuity(lines.deep_view(), li as int);
                &&& optv(kind) == f.0
                &&& action@ == f.1
            }),
        decreases lines@.len() - li,
    {
        let line = &lines[li];
        let ghost lv = lines.deep_view()[li as int];
        proof {
            assert(line.deep_view() =~= line@);
            assert(lv == line@);
            assert(line@.subrange(0, line@.len() as int) =~= line@);
        }
        let (lo, hi) = trim_chars(line, 0, line.len());
        let ghost l = trim_spec(lv);
        proof {
            assert(l =~= lv.subrange(lo as int, hi as int));
        }
        if lo < hi {
            let ci = find_char(line, lo, hi, ':');
            proof {
                assert(lv.subrange(lo as int, hi as int).subrange(0, (ci - lo) as int)
                    =~= lv.subrange(lo as int, ci as int));
            }
            if ci < hi {
                proof {
                    assert(lv.subrange(lo as int, hi as int).subrange(
                        ci - lo + 1,
                        (hi - lo) as int,
                    ) =~= lv.subrange(ci + 1, hi as int));
                }
                let (klo, khi) = trim_chars(line, lo, ci);
                let key = upper_range(line, klo, khi);
                proof {
                    assert(key@ == to_upper_seq(trim_spec(l.subrange(0, ci - lo))));
                }
                let (vlo, vhi) = trim_chars(line, ci + 1, hi);
                proof {
                    assert(lv.subrange(vlo as int, vhi as int) == trim_spec(
                        l.subrange(ci - lo + 1, l.len() as int),
                    ));
                }
                if chars_eq(&key, &key_kind) {
                    kind = Some(lower_range(line, vlo, vhi));
                } else if chars_eq(&key, &key_action) {
                    action = lower_range(line, vlo, vhi);
                }
            }
        }
        li += 1;
    }
    let cont = str_to_chars("continuity");
    let matches_kind = match &kind {
        Some(k) => chars_eq(k, &cont),
        None => false,
    };
    if !matches_kind {
        return None;
    }
    let save = str_to_chars("save");
    let load = str_to_chars("load");
    let uncertain = str_to_chars("uncertain");
    if !(chars_eq(&action, &save) || chars_eq(&action, &load) || chars_eq(&action, &uncertain)) {
        return None;
    }
    let content_v = match body {
        Some(b) => b,
        None => Vec::new(),
    };
    Some(
        ContinuityMessage {
            action: chars_to_string(&action),
            content: chars_to_string(&content_v),
        },
    )
}

/// Description of one parsed relay command, over plain sequences.
pub struct CmdSpec {
    /// `message`, `spawn` or `release`.
    pub kind: Seq<char>,
    /// Target field.
    pub to: Seq<char>,
    /// Body field.
    pub body: Seq<char>,
    /// The text that was matched.
    pub raw: Seq<char>,
    /// Thread lifted from the target.
    pub thread: Option<Seq<char>>,
    /// Spawn fields.
    pub spawn_name: Option<Seq<char>>,
    /// Spawn CLI.
    pub spawn_cli: Option<Seq<char>>,
    /// Spawn task.
    pub spawn_task: Option<Seq<char>>,
    /// Release target.
    pub release_name: Option<Seq<char>>,
}

/// A message command.
pub open spec fn msg_cmd(to: Seq<char>, body: Seq<char>, raw: Seq<char>, thread: Option<Seq<char>>) -> CmdSpec {
    CmdSpec {
        kind: "message"@,
        to,
        body,
        raw,
        thread,
        spawn_name: None,
        spawn_cli: None,
        spawn_task: None,
        release_name: None,
    }
}

/// A spawn command.
pub open spec fn spawn_cmd(name: Seq<char>, cli: Seq<char>, task: Seq<char>, raw: Seq<char>) -> CmdSpec {
    CmdSpec {
        kind: "spawn"@,
        to: "spawn"@,
        body: task,
        raw,
        thread: None,
        spawn_name: Some(name),
        spawn_cli: Some(cli),
        spawn_task: Some(task),
        release_name: None,
    }
}

/// A release command.
pub open spec fn release_cmd(name: Seq<char>, raw: Seq<char>) -> CmdSpec {
    CmdSpec {
        kind: "release"@,
        to: "release"@,
        body: name,
        raw,
        thread: None,
        spawn_name: None,
        spawn_cli: None,
        spawn_task: None,
        release_name: Some(name),
    }
}

/// The executable command `c`, from `agent`, realizes the description `s`.
pub open spec fn cmd_matches(c: ParsedRelayCommand, agent: Seq<char>, s: CmdSpec) -> bool {
    &&& c.cmd_type@ == "relay_command"@
    &&& c.kind@ == s.kind
    &&& c.from@ == agent
    &&& c.to@ == s.to
    &&& c.body@ == s.body
    &&& c.raw@ == s.raw
    &&& opt_view(c.thread) == s.thread
    &&& c.sync is None
    &&& opt_view(c.spawn_name) == s.spawn_name
    &&& opt_view(c.spawn_cli) == s.spawn_cli
    &&& opt_view(c.spawn_task) == s.spawn_task
    &&& opt_view(c.release_name) == s.release_name
}

/// Each command of `cs` realizes the corresponding description of `specs`.
pub open spec fn cmds_match(cs: Seq<ParsedRelayCommand>, agent: Seq<char>, specs: Seq<CmdSpec>) -> bool {
    cs.len() == specs.len() && forall|k: int|
        0 <= k < cs.len() ==> cmd_matches(#[trigger] cs[k], agent, specs[k])
}

/// The thread hint inside a target: the text between the first viable
/// `[thread:` opener and the next `]`.
pub open spec fn thread_of_target(t: Seq<char>, pos: int) -> Option<Seq<char>>
    decreases t.len() + 1 - pos
        when pos >= 0
{
    let i = first_occ_from(t, "[thread:"@, pos);
    if i < 0 {
        None
    } else {
        proof {
            lemma_first_occ_from(t, "[thread:"@, pos);
            reveal_strlit("[thread:");
        }
        let j = i + 8 + first_char(t.subrange(i + 8, t.len() as int), ']');
        if j >= t.len() {
            thread_of_target(t, i + 1)
        } else if j == i + 8 {
            thread_of_target(t, i + 1)
        } else {
            Some(t.subrange(i + 8, j))
        }
    }
}

/// A spawn command in fenced form starting at `i`: the spawn opener, a
/// name, a CLI and a fenced task. Returns the description and the position
/// after the closing fence.
pub open spec fn spawn_fenced_at(s: Seq<char>, i: int) -> Option<(CmdSpec, int)> {
    let a = i + 13;
    let s1 = space_run_end(s, a);
    let w1 = word_run_end(s, s1);
    let s2 = space_run_end(s, w1);
    let w2 = word_run_end(s, s2);
    let s3 = space_run_end(s, w2);
    if s1 == a || w1 == s1 || s2 == w1 || w2 == s2 || !occurs_at(s, "<<<"@, s3) {
        None
    } else {
        let t0 = space_run_end(s, s3 + 3);
        let g = first_occ_from(s, ">>>"@, t0);
        if g < 0 {
            None
        } else {
            let name = s.subrange(s1, w1);
            let cli = s.subrange(s2, w2);
            let task = trim_spec(s.subrange(t0, g));
            let raw = s.subrange(i, g + 3);
            Some((spawn_cmd(name, cli, task, raw), g + 3))
        }
    }
}

/// A spawn command in single-line form starting at `i`: the spawn opener, a
/// name, a CLI and a quoted task.
pub open spec fn spawn_single_at(s: Seq<char>, i: int) -> Option<(CmdSpec, int)> {
    let a = i + 13;
    let s1 = space_run_end(s, a);
    let w1 = word_run_end(s, s1);
    let s2 = space_run_end(s, w1);
    let w2 = word_run_end(s, s2);
    let s3 = space_run_end(s, w2);
    if s1 == a || w1 == s1 || s2 == w1 || w2 == s2 || s3 == w2 || s3 >= s.len() || s[s3] != '"' {
        None
    } else {
        let q = s3 + 1 + first_char(s.subrange(s3 + 1, s.len() as int), '"');
        if q >= s.len() || q == s3 + 1 {
            None
        } else {
            let name = s.subrange(s1, w1);
            let cli = s.subrange(s2, w2);
            let task = s.subrange(s3 + 1, q);
            let raw = s.subrange(i, q + 1);
            Some((spawn_cmd(name, cli, task, raw), q + 1))
        }
    }
}

/// A release command starting at `i`: the release opener and a name.
pub open spec fn release_at(s: Seq<char>, i: int) -> Option<(CmdSpec, int)> {
    let a = i + 15;
    let s1 = space_run_end(s, a);
    let w1 = word_run_end(s, s1);
    if s1 == a || w1 == s1 {
        None
    } else {
        let name = s.subrange(s1, w1);
        let raw = s.subrange(i, w1);
        Some((release_cmd(name, raw), w1))
    }
}

/// A fenced message starting at `i`: the relay opener, a non-space target,
/// whitespace, and a fenced body. Spawn and release targets yield no
/// command here but still consume the match.
pub open spec fn fenced_at(s: Seq<char>, i: int) -> Option<(Option<CmdSpec>, int)> {
    let a = i + 8;
    let t1 = nonspace_run_end(s, a);
    let s1 = space_run_end(s, t1);
    if t1 == a || s1 == t1 || !occurs_at(s, "<<<"@, s1) {
        None
    } else {
        let t0 = space_run_end(s, s1 + 3);
        let g = first_occ_from(s, ">>>"@, t0);
        if g < 0 {
            None
        } else {
            let target = s.subrange(a, t1);
            let body = trim_spec(s.subrange(t0, g));
            let raw = s.subrange(i, g + 3);
            let e = g + 3;
            if target == "spawn"@ || starts_with(target, "spawn "@) || target == "release"@ {
                Some((None, e))
            } else {
                Some((Some(msg_cmd(target, body, raw, thread_of_target(target, 0))), e))
            }
        }
    }
}

/// The end of an attempted match lies after its start and within the text.
pub proof fn lemma_attempt_bounds(s: Seq<char>, i: int)
    requires
        0 <= i <= s.len(),
    ensures
        spawn_fenced_at(s, i) matches Some((c, e)) ==> i < e <= s.len(),
        spawn_single_at(s, i) matches Some((c, e)) ==> i < e <= s.len(),
        release_at(s, i) matches Some((c, e)) ==> i < e <= s.len(),
        fenced_at(s, i) matches Some((oc, e)) ==> i < e <= s.len(),
{
    reveal_strlit("<<<");
    reveal_strlit(">>>");
    // the two spawn forms
    if i + 13 <= s.len() {
        lemma_run_bounds(s, i + 13);
        let s1 = space_run_end(s, i + 13);
        lemma_run_bounds(s, s1);
        let w1 = word_run_end(s, s1);
        lemma_run_bounds(s, w1);
        let s2 = space_run_end(s, w1);
        lemma_run_bounds(s, s2);
        let w2 = word_run_end(s, s2);
        lemma_run_bounds(s, w2);
        let s3 = space_run_end(s, w2);
        if occurs_at(s, "<<<"@, s3) {
            lemma_run_bounds(s, s3 + 3);
            let t0 = space_run_end(s, s3 + 3);
            lemma_first_occ_from(s, ">>>"@, t0);
        }
        if s3 < s.len() && s[s3] == '"' {
            crate::text::lemma_first_char_at_most_len(
                s.subrange(s3 + 1, s.len() as int),
                '"',
            );
        }
    }
    // release
    if i + 15 <= s.len() {
        lemma_run_bounds(s, i + 15);
        let s1 = space_run_end(s, i + 15);
        lemma_run_bounds(s, s1);
        lemma_run_bounds(s, word_run_end(s, s1));
    }
    // fenced message
    if i + 8 <= s.len() {
        lemma_run_bounds(s, i + 8);
        let t1 = nonspace_run_end(s, i + 8);
        lemma_run_bounds(s, t1);
        let s1 = space_run_end(s, t1);
        if occurs_at(s, "<<<"@, s1) {
            lemma_run_bounds(s, s1 + 3);
            let t0 = space_run_end(s, s1 + 3);
            lemma_first_occ_from(s, ">>>"@, t0);
        }
    }
}

/// `first_char` over a suffix stays within the text.
pub proof fn lemma_first_char_in_range(s: Seq<char>, j: int)
    requires
        0 <= j <= s.len(),
    ensures
        forall|c: char|
            j + #[trigger] first_char(s.subrange(j, s.len() as int), c) <= s.len(),
{
    assert forall|c: char|
        j + #[trigger] first_char(s.subrange(j, s.len() as int), c) <= s.len() by {
        crate::text::lemma_first_char_at_most_len(s.subrange(j, s.len() as int), c);
    }
}

/// All spawn-fenced matches in `s` from `pos` on, leftmost first.
pub open spec fn scan_spawn_fenced(s: Seq<char>, pos: int) -> Seq<CmdSpec>
    decreases s.len() + 1 - pos
        when pos >= 0
{
    let i = first_occ_from(s, "->relay:spawn"@, pos);
    if i < 0 {
        Seq::empty()
    } else {
        proof {
            lemma_first_occ_from(s, "->relay:spawn"@, pos);
            lemma_attempt_bounds(s, i);
        }
        match spawn_fenced_at(s, i) {
            Some((c, e)) => seq![c] + scan_spawn_fenced(s, e),
            None => scan_spawn_fenced(s, i + 1),
        }
    }
}

/// All spawn-single matches in `s` from `pos` on.
pub open spec fn scan_spawn_single(s: Seq<char>, pos: int) -> Seq<CmdSpec>
    decreases s.len() + 1 - pos
        when pos >= 0
{
    let i = first_occ_from(s, "->relay:spawn"@, pos);
    if i < 0 {
        Seq::empty()
    } else {
        proof {
            lemma_first_occ_from(s, "->relay:spawn"@, pos);
            lemma_attempt_bounds(s, i);
        }
        match spawn_single_at(s, i) {
            Some((c, e)) => seq![c] + scan_spawn_single(s, e),
            None => scan_spawn_single(s, i + 1),
        }
    }
}

/// All release matches in `s` from `pos` on.
pub open spec fn scan_release(s: Seq<char>, pos: int) -> Seq<CmdSpec>
    decreases s.len() + 1 - pos
        when pos >= 0
{
    let i = first_occ_from(s, "->relay:release"@, pos);
    if i < 0 {
        Seq::empty()
    } else {
        proof {
            lemma_first_occ_from(s, "->relay:release"@, pos);
            lemma_attempt_bounds(s, i);
        }
        match release_at(s, i) {
            Some((c, e)) => seq![c] + scan_release(s, e),
            None => scan_release(s, i + 1),
        }
    }
}

/// All fenced-message matches in `s` from `pos` on; spawn and release
/// targets are consumed without yielding a command.
pub open spec fn scan_fenced(s: Seq<char>, pos: int) -> Seq<CmdSpec>
    decreases s.len() + 1 - pos
        when pos >= 0
{
    let i = first_occ_from(s, "->relay:"@, pos);
    if i < 0 {
        Seq::empty()
    } else {
        proof {
            lemma_first_occ_from(s, "->relay:"@, pos);
            lemma_attempt_bounds(s, i);
        }
        match fenced_at(s, i) {
            Some((Some(c), e)) => seq![c] + scan_fenced(s, e),
            Some((None, e)) => scan_fenced(s, e),
            None => scan_fenced(s, i + 1),
        }
    }
}

/// Characters tolerated before a single-line relay command: whitespace and
/// shell-prompt decoration.
pub open spec fn is_junk_char(c: char) -> bool {
    crate::text::is_space_char(c) || c == '>' || c == '$' || c == '%' || c == '#' || c == '-'
        || c == '*'
}

/// End of the maximal run of junk characters starting at `j`.
pub open spec fn junk_run_end(s: Seq<char>, j: int) -> int
    decreases s.len() - j
        when j >= 0
{
    if 0 <= j < s.len() && is_junk_char(s[j]) {
        junk_run_end(s, j + 1)
    } else {
        j
    }
}

/// The largest `j <= hi` where the relay opener occurs, or `-1`: leading
/// decoration may overlap the opener's own characters, so the longest
/// decoration prefix that still leaves an opener wins.
pub open spec fn best_opener(l: Seq<char>, j: int) -> int
    decreases j + 1
        when j >= -1
{

    if j < 0 {
        -1
    } else if occurs_at(l, "->relay:"@, j) {
        j
    } else {
        best_opener(l, j - 1)
    }
}

/// A single-line relay command on line `l`: optional prompt decoration,
/// the relay opener, a non-space target, whitespace and a non-empty rest
/// of line. Spawn and release targets and fence openers yield nothing.
pub open spec fn single_line_at(l: Seq<char>) -> Option<CmdSpec> {
    let m = junk_run_end(l, 0);
    let start = if l.len() < 8 {
        -1
    } else if m + 8 <= l.len() {
        m
    } else {
        l.len() - 8
    };
    let j = best_opener(l, start);
    if j < 0 {
        None
    } else {
        let a = j + 8;
        let t1 = nonspace_run_end(l, a);
        let s1 = space_run_end(l, t1);
        if t1 == a || l.len() - t1 < 2 {
            None
        } else {
            let body_start = if s1 < l.len() {
                s1
            } else {
                l.len() - 1
            };
            let target = l.subrange(a, t1);
            let rest = l.subrange(body_start, l.len() as int);
            if target == "spawn"@ || target == "release"@ || starts_with(rest, "<<<"@) {
                None
            } else {
                Some(msg_cmd(target, trim_spec(rest), l, thread_of_target(target, 0)))
            }
        }
    }
}

/// The single-line commands of all lines, in order.
pub open spec fn scan_single_lines(lines: Seq<Seq<char>>, i: int) -> Seq<CmdSpec>
    decreases i
        when i >= 0
{
    if i <= 0 {
        Seq::empty()
    } else {
        scan_single_lines(lines, i - 1) + match single_line_at(lines[i - 1]) {
            Some(c) => seq![c],
            None => Seq::<CmdSpec>::empty(),
        }
    }
}

/// All file-backed triggers in `s` from `pos` on: the file opener followed
/// by a non-empty id. Each entry is the match start and the id end.
pub open spec fn scan_file_triggers_spec(s: Seq<char>, pos: int) -> Seq<(int, int)>
    decreases s.len() + 1 - pos
        when pos >= 0
{
    let i = first_occ_from(s, "->relay-file:"@, pos);
    if i < 0 {
        Seq::empty()
    } else {
        proof {
            lemma_first_occ_from(s, "->relay-file:"@, pos);
            reveal_strlit("->relay-file:");
            lemma_run_bounds(s, i + 13);
        }
        let e = id_run_end(s, i + 13);
        if e == i + 13 {
            scan_file_triggers_spec(s, i + 1)
        } else {
            seq![(i, e)] + scan_file_triggers_spec(s, e)
        }
    }
}

/// Extracts the thread hint from a target.
fn extract_thread(t: &Vec<char>) -> (r: Option<Vec<char>>)
    ensures
        optv(r) == thread_of_target(t@, 0),
{
    let pat = str_to_chars("[thread:");
    let n = t.len();
    let mut pos: usize = 0;
    proof {
        reveal_strlit("[thread:");
    }
    loop
        invariant
            0 <= pos,
            pat@ == "[thread:"@,
            pat@.len() == 8,
            t@.len() <= usize::MAX,
            thread_of_target(t@, 0) == thread_of_target(t@, pos as int),
        decreases t@.len() + 1 - pos,
    {
        let occ = find_occ_from(t, &pat, pos);
        match occ {
            Some(i) => {
                let j = find_char(t, i + 8, t.len(), ']');
                proof {
                    assert(j - (i + 8) == first_char(t@.subrange(i + 8, t@.len() as int), ']'));
                }
                if j < t.len() && j > i + 8 {
                    let th = sub_chars(t, i + 8, j);
                    return Some(th);
                } else {
                    pos = i + 1;
                }
            },
            None => {
                return None;
            },
        }
    }
}

/// Executable test matching `is_junk_char`.
fn junk_char(c: char) -> (r: bool)
    ensures
        r == is_junk_char(c),
{
    crate::text::space_char(c) || c == '>' || c == '$' || c == '%' || c == '#' || c == '-'
        || c == '*'
}

/// Executable scan of a junk-character run.
fn scan_junk_run(v: &Vec<char>, from: usize) -> (r: usize)
    requires
        from <= v@.len(),
    ensures
        from <= r <= v@.len(),
        r == junk_run_end(v@, from as int),
{
    let mut k: usize = from;
    while k < v.len() && junk_char(v[k])
        invariant
            from <= k <= v@.len(),
            junk_run_end(v@, from as int) == junk_run_end(v@, k as int),
        decreases v@.len() - k,
    {
        k += 1;
    }
    k
}

/// All spawn commands in fenced form in `v`.
fn scan_spawn_fenced_exec(v: &Vec<char>, agent: &str) -> (r: Vec<ParsedRelayCommand>)
    ensures
        cmds_match(r@, agent@, scan_spawn_fenced(v@, 0)),
{
    let lit = str_to_chars("->relay:spawn");
    let open_fence = str_to_chars("<<<");
    let close_fence = str_to_chars(">>>");
    let mut out: Vec<ParsedRelayCommand> = Vec::new();
    let ghost mut done: Seq<CmdSpec> = Seq::empty();
    let mut pos: usize = 0;
    let n = v.len();
    proof {
        reveal_strlit("->relay:spawn");
        reveal_strlit("<<<");
        reveal_strlit(">>>");
    }
    loop
        invariant
            0 <= pos,
            lit@ == "->relay:spawn"@,
            open_fence@ == "<<<"@,
            close_fence@ == ">>>"@,
            lit@.len() == 13,
            open_fence@.len() == 3,
            close_fence@.len() == 3,
            v@.len() <= usize::MAX,
            scan_spawn_fenced(v@, 0) == done + scan_spawn_fenced(v@, pos as int),
            cmds_match(out@, agent@, done),
        decreases v@.len() + 1 - pos,
    {
        let occ = find_occ_from(v, &lit, pos);
        let i = match occ {
            Some(i) => i,
            None => {
                proof {
                    assert(scan_spawn_fenced(v@, pos as int) =~= Seq::<CmdSpec>::empty());
                    assert(done + scan_spawn_fenced(v@, pos as int) =~= done);
                }
                return out;
            },
        };
        proof {
            lemma_first_occ_from(v@, lit@, pos as int);
            lemma_attempt_bounds(v@, i as int);
        }
        let s1 = scan_space_run(v, i + 13);
        let w1 = scan_word_run(v, s1);
        let s2 = scan_space_run(v, w1);
        let w2 = scan_word_run(v, s2);
        let s3 = scan_space_run(v, w2);
        if s1 == i + 13 || w1 == s1 || s2 == w1 || w2 == s2 || !crate::text::matches_at(
            v,
            &open_fence,
            s3,
        ) {
            proof {
                assert(spawn_fenced_at(v@, i as int) is None);
            }
            pos = i + 1;
        } else {
            let t0 = scan_space_run(v, s3 + 3);
            let g_occ = find_occ_from(v, &close_fence, t0);
            match g_occ {
                None => {
                    proof {
                        assert(spawn_fenced_at(v@, i as int) is None);
                    }
                    pos = i + 1;
                },
                Some(g) => {
                    let name = sub_chars(v, s1, w1);
                    let cli = sub_chars(v, s2, w2);
                    let (tlo, thi) = trim_chars(v, t0, g);
                    let task = sub_chars(v, tlo, thi);
                    let raw = sub_chars(v, i, g + 3);
                    let ghost cspec = spawn_cmd(
                        v@.subrange(s1 as int, w1 as int),
                        v@.subrange(s2 as int, w2 as int),
                        trim_spec(v@.subrange(t0 as int, g as int)),
                        v@.subrange(i as int, g + 3),
                    );
                    proof {
                        assert(spawn_fenced_at(v@, i as int) == Some((cspec, g + 3 as int)));
                    }
                    let cmd = ParsedRelayCommand::new_spawn(
                        agent.to_owned(),
                        chars_to_string(&name),
                        chars_to_string(&cli),
                        chars_to_string(&task),
                        chars_to_string(&raw),
                    );
                    proof {
                        assert(cmd_matches(cmd, agent@, cspec));
                    }
                    out.push(cmd);
                    proof {
                        done = done + seq![cspec];
                    }
                    pos = g + 3;
                },
            }
        }
    }
}

/// All spawn commands in quoted single-line form in `v`.
fn scan_spawn_single_exec(v: &Vec<char>, agent: &str) -> (r: Vec<ParsedRelayCommand>)
    ensures
        cmds_match(r@, agent@, scan_spawn_single(v@, 0)),
{
    let lit = str_to_chars("->relay:spawn");
    let mut out: Vec<ParsedRelayCommand> = Vec::new();
    let ghost mut done: Seq<CmdSpec> = Seq::empty();
    let mut pos: usize = 0;
    let n = v.len();
    proof {
        reveal_strlit("->relay:spawn");
    }
    loop
        invariant
            0 <= pos,
            lit@ == "->relay:spawn"@,
            lit@.len() == 13,
            v@.len() <= usize::MAX,
            scan_spawn_single(v@, 0) == done + scan_spawn_single(v@, pos as int),
            cmds_match(out@, agent@, done),
        decreases v@.len() + 1 - pos,
    {
        let occ = find_occ_from(v, &lit, pos);
        let i = match occ {
            Some(i) => i,
            None => {
                proof {
                    assert(scan_spawn_single(v@, pos as int) =~= Seq::<CmdSpec>::empty());
                    assert(done + scan_spawn_single(v@, pos as int) =~= done);
                }
                return out;
            },
        };
        proof {
            lemma_first_occ_from(v@, lit@, pos as int);
            lemma_attempt_bounds(v@, i as int);
        }
        let s1 = scan_space_run(v, i + 13);
        let w1 = scan_word_run(v, s1);
        let s2 = scan_space_run(v, w1);
        let w2 = scan_word_run(v, s2);
        let s3 = scan_space_run(v, w2);
        if s1 == i + 13 || w1 == s1 || s2 == w1 || w2 == s2 || s3 == w2 || s3 >= v.len() || v[s3]
            != '"' {
            proof {
                assert(spawn_single_at(v@, i as int) is None);
            }
            pos = i + 1;
        } else {
            let q = find_char(v, s3 + 1, v.len(), '"');
            proof {
                assert(q - (s3 + 1) == first_char(v@.subrange(s3 + 1, v@.len() as int), '"'));
            }
            if q >= v.len() || q == s3 + 1 {
                proof {
                    assert(spawn_single_at(v@, i as int) is None);
                }
                pos = i + 1;
            } else {
                let name = sub_chars(v, s1, w1);
                let cli = sub_chars(v, s2, w2);
                let task = sub_chars(v, s3 + 1, q);
                let raw = sub_chars(v, i, q + 1);
                let ghost cspec = spawn_cmd(
                    v@.subrange(s1 as int, w1 as int),
                    v@.subrange(s2 as int, w2 as int),
                    v@.subrange(s3 + 1, q as int),
                    v@.subrange(i as int, q + 1),
                );
                proof {
                    assert(spawn_single_at(v@, i as int) == Some((cspec, q + 1 as int)));
                }
                let cmd = ParsedRelayCommand::new_spawn(
                    agent.to_owned(),
                    chars_to_string(&name),
                    chars_to_string(&cli),
                    chars_to_string(&task),
                    chars_to_string(&raw),
                );
                proof {
                    assert(cmd_matches(cmd, agent@, cspec));
                }
                out.push(cmd);
                proof {
                    done = done + seq![cspec];
                }
                pos = q + 1;
            }
        }
    }
}

/// All release commands in `v`.
fn scan_release_exec(v: &Vec<char>, agent: &str) -> (r: Vec<ParsedRelayCommand>)
    ensures
        cmds_match(r@, agent@, scan_release(v@, 0)),
{
    let lit = str_to_chars("->relay:release");
    let mut out: Vec<ParsedRelayCommand> = Vec::new();
    let ghost mut done: Seq<CmdSpec> = Seq::empty();
    let mut pos: usize = 0;
    let n = v.len();
    proof {
        reveal_strlit("->relay:release");
    }
    loop
        invariant
            0 <= pos,
            lit@ == "->relay:release"@,
            lit@.len() == 15,
            v@.len() <= usize::MAX,
            scan_release(v@, 0) == done + scan_release(v@, pos as int),
            cmds_match(out@, agent@, done),
        decreases v@.len() + 1 - pos,
    {
        let occ = find_occ_from(v, &lit, pos);
        let i = match occ {
            Some(i) => i,
            None => {
                proof {
                    assert(scan_release(v@, pos as int) =~= Seq::<CmdSpec>::empty());
                    assert(done + scan_release(v@, pos as int) =~= done);
                }
                return out;
            },
        };
        proof {
            lemma_first_occ_from(v@, lit@, pos as int);
            lemma_attempt_bounds(v@, i as int);
        }
        let s1 = scan_space_run(v, i + 15);
        let w1 = scan_word_run(v, s1);
        if s1 == i + 15 || w1 == s1 {
            proof {
                assert(release_at(v@, i as int) is None);
            }
            pos = i + 1;
        } else {
            let name = sub_chars(v, s1, w1);
            let raw = sub_chars(v, i, w1);
            let ghost cspec = release_cmd(
                v@.subrange(s1 as int, w1 as int),
                v@.subrange(i as int, w1 as int),
            );
            proof {
                assert(release_at(v@, i as int) == Some((cspec, w1 as int)));
            }
            let cmd = ParsedRelayCommand::new_release(
                agent.to_owned(),
                chars_to_string(&name),
                chars_to_string(&raw),
            );
            proof {
                assert(cmd_matches(cmd, agent@, cspec));
            }
            out.push(cmd);
            proof {
                done = done + seq![cspec];
            }
            pos = w1;
        }
    }
}

/// All fenced messages in `v`; spawn and release targets are consumed
/// without yielding a command.
fn scan_fenced_exec(v: &Vec<char>, agent: &str) -> (r: Vec<ParsedRelayCommand>)
    ensures
        cmds_match(r@, agent@, scan_fenced(v@, 0)),
{
    let lit = str_to_chars("->relay:");
    let open_fence = str_to_chars("<<<");
    let close_fence = str_to_chars(">>>");
    let spawn_t = str_to_chars("spawn");
    let spawn_sp = str_to_chars("spawn ");
    let release_t = str_to_chars("release");
    let mut out: Vec<ParsedRelayCommand> = Vec::new();
    let ghost mut done: Seq<CmdSpec> = Seq::empty();
    let mut pos: usize = 0;
    let n = v.len();
    proof {
        reveal_strlit("->relay:");
        reveal_strlit("<<<");
        reveal_strlit(">>>");
        reveal_strlit("spawn");
        reveal_strlit("spawn ");
        reveal_strlit("release");
    }
    loop
        invariant
            0 <= pos,
            lit@ == "->relay:"@,
            open_fence@ == "<<<"@,
            close_fence@ == ">>>"@,
            spawn_t@ == "spawn"@,
            spawn_sp@ == "spawn "@,
            release_t@ == "release"@,
            lit@.len() == 8,
            open_fence@.len() == 3,
            close_fence@.len() == 3,
            v@.len() <= usize::MAX,
            scan_fenced(v@, 0) == done + scan_fenced(v@, pos as int),
            cmds_match(out@, agent@, done),
        decreases v@.len() + 1 - pos,
    {
        let occ = find_occ_from(v, &lit, pos);
        let i = match occ {
            Some(i) => i,
            None => {
                proof {
                    assert(scan_fenced(v@, pos as int) =~= Seq::<CmdSpec>::empty());
                    assert(done + scan_fenced(v@, pos as int) =~= done);
                }
                return out;
            },
        };
        proof {
            lemma_first_occ_from(v@, lit@, pos as int);
            lemma_attempt_bounds(v@, i as int);
        }
        let t1 = crate::text::scan_nonspace_run(v, i + 8);
        let s1 = scan_space_run(v, t1);
        if t1 == i + 8 || s1 == t1 || !crate::text::matches_at(v, &open_fence, s1) {
            proof {
                assert(fenced_at(v@, i as int) is None);
            }
            pos = i + 1;
        } else {
            let t0 = scan_space_run(v, s1 + 3);
            let g_occ = find_occ_from(v, &close_fence, t0);
            match g_occ {
                None => {
                    proof {
                        assert(fenced_at(v@, i as int) is None);
                    }
                    pos = i + 1;
                },
                Some(g) => {
                    let target = sub_chars(v, i + 8, t1);
                    let skip = chars_eq(&target, &spawn_t) || crate::text::matches_at(
                        &target,
                        &spawn_sp,
                        0,
                    ) || chars_eq(&target, &release_t);
                    if skip {
                        proof {
                            assert(fenced_at(v@, i as int) matches Some((oc, e)) && oc is None
                                && e == g + 3);
                        }
                        pos = g + 3;
                    } else {
                        let (blo, bhi) = trim_chars(v, t0, g);
                        let body = sub_chars(v, blo, bhi);
                        let raw = sub_chars(v, i, g + 3);
                        let thread = extract_thread(&target);
                        let ghost cspec = msg_cmd(
                            v@.subrange(i + 8, t1 as int),
                            trim_spec(v@.subrange(t0 as int, g as int)),
                            v@.subrange(i as int, g + 3),
                            thread_of_target(v@.subrange(i + 8, t1 as int), 0),
                        );
                        proof {
                            assert(fenced_at(v@, i as int) == Some(
                                (Some(cspec), g + 3 as int),
                            ));
                        }
                        let mut cmd = ParsedRelayCommand::new_message(
                            agent.to_owned(),
                            chars_to_string(&target),
                            chars_to_string(&body),
                            chars_to_string(&raw),
                        );
                        cmd = match thread {
                            Some(th) => cmd.with_thread(chars_to_string(&th)),
                            None => cmd,
                        };
                        proof {
                            assert(cmd_matches(cmd, agent@, cspec));
                        }
                        out.push(cmd);
                        proof {
                            done = done + seq![cspec];
                        }
                        pos = g + 3;
                    }
                },
            }
        }
    }
}

/// The longest decoration prefix that still leaves a relay opener, searched
/// downward from `start`.
fn find_best_opener(line: &Vec<char>, opener: &Vec<char>, start: usize) -> (r: Option<usize>)
    requires
        opener@ == "->relay:"@,
    ensures
        match r {
            Some(j) => j <= start && best_opener(line@, start as int) == j,
            None => best_opener(line@, start as int) == -1,
        },
{
    let mut j = start;
    loop
        invariant
            0 <= j <= start,
            opener@ == "->relay:"@,
            best_opener(line@, start as int) == best_opener(line@, j as int),
        decreases j,
    {
        if crate::text::matches_at(line, opener, j) {
            return Some(j);
        }
        if j == 0 {
            proof {
                assert(best_opener(line@, -1) == -1);
                assert(best_opener(line@, 0) == -1);
            }
            return None;
        }
        j -= 1;
    }
}

/// The single-line commands of every line, in order.
fn scan_single_lines_exec(lines: &Vec<Vec<char>>, agent: &str) -> (r: Vec<ParsedRelayCommand>)
    ensures
        cmds_match(
            r@,
            agent@,
            scan_single_lines(lines.deep_view(), lines.deep_view().len() as int),
        ),
{
    let opener = str_to_chars("->relay:");
    let spawn_t = str_to_chars("spawn");
    let release_t = str_to_chars("release");
    let fence = str_to_chars("<<<");
    let mut out: Vec<ParsedRelayCommand> = Vec::new();
    let ghost mut done: Seq<CmdSpec> = Seq::empty();
    let mut li: usize = 0;
    proof {
        reveal_strlit("->relay:");
        reveal_strlit("spawn");
        reveal_strlit("release");
        reveal_strlit("<<<");
    }
    while li < lines.len()
        invariant
            0 <= li <= lines@.len(),
            lines@.len() == lines.deep_view().len(),
            opener@ == "->relay:"@,
            spawn_t@ == "spawn"@,
            release_t@ == "release"@,
            fence@ == "<<<"@,
            opener@.len() == 8,
            done == scan_single_lines(lines.deep_view(), li as int),
            cmds_match(out@, agent@, done),
        decreases lines@.len() - li,
    {
        let line = &lines[li];
        let ghost l = lines.deep_view()[li as int];
        proof {
            assert(line.deep_view() =~= line@);
            assert(l == line@);
        }
        let m = scan_junk_run(line, 0);
        let mut matched = false;
        if line.len() >= 8 {
            let start = if m <= line.len() - 8 {
                m
            } else {
                line.len() - 8
            };
            let opener_at = find_best_opener(line, &opener, start);
            if let Some(j) = opener_at {
                let a = j + 8;
                let t1 = crate::text::scan_nonspace_run(line, a);
                let s1 = scan_space_run(line, t1);
                if t1 != a && line.len() - t1 >= 2 {
                    let body_start = if s1 < line.len() {
                        s1
                    } else {
                        line.len() - 1
                    };
                    let target = sub_chars(line, a, t1);
                    let rest = sub_chars(line, body_start, line.len());
                    let skip = chars_eq(&target, &spawn_t) || chars_eq(&target, &release_t)
                        || crate::text::matches_at(&rest, &fence, 0);
                    if !skip {
                        let (blo, bhi) = trim_chars(&rest, 0, rest.len());
                        let body = sub_chars(&rest, blo, bhi);
                        let thread = extract_thread(&target);
                        let raw = sub_chars(line, 0, line.len());
                        let ghost cspec = msg_cmd(
                            l.subrange(a as int, t1 as int),
                            trim_spec(l.subrange(body_start as int, l.len() as int)),
                            l,
                            thread_of_target(l.subrange(a as int, t1 as int), 0),
                        );
                        proof {
                            assert(rest@.subrange(0, rest@.len() as int) =~= rest@);
                            assert(l.subrange(0, l.len() as int) =~= l);
                            assert(single_line_at(l) == Some(cspec));
                        }
                        let mut cmd = ParsedRelayCommand::new_message(
                            agent.to_owned(),
                            chars_to_string(&target),
                            chars_to_string(&body),
                            chars_to_string(&raw),
                        );
                        cmd = match thread {
                            Some(th) => cmd.with_thread(chars_to_string(&th)),
                            None => cmd,
                        };
                        proof {
                            assert(cmd_matches(cmd, agent@, cspec));
                        }
                        out.push(cmd);
                        proof {
                            done = done + seq![cspec];
                        }
                        matched = true;
                    }
                }
            }
        }
        proof {
            if !matched {
                assert(single_line_at(l) is None);
                assert(done + Seq::<CmdSpec>::empty() =~= done);
            }
        }
        li += 1;
    }
    out
}

/// A file-backed message trigger found in the output: the id and the raw
/// matched text.
#[derive(Debug, Clone)]
pub struct FileTrigger {
    /// The file id after the opener.
    pub id: String,
    /// The matched text, opener and id.
    pub raw: String,
}

/// `ft` is the trigger described by the pair `t` inside `region`.
pub open spec fn trigger_matches(ft: FileTrigger, region: Seq<char>, t: (int, int)) -> bool {
    ft.id@ == region.subrange(t.0 + 13, t.1) && ft.raw@ == region.subrange(t.0, t.1)
}

/// All file-backed triggers in `v`, in order.
fn scan_file_triggers_exec(v: &Vec<char>) -> (r: Vec<FileTrigger>)
    ensures
        r@.len() == scan_file_triggers_spec(v@, 0).len(),
        forall|k: int|
            0 <= k < r@.len() ==> trigger_matches(
                #[trigger] r@[k],
                v@,
                scan_file_triggers_spec(v@, 0)[k],
            ),
{
    let lit = str_to_chars("->relay-file:");
    let mut out: Vec<FileTrigger> = Vec::new();
    let ghost mut done: Seq<(int, int)> = Seq::empty();
    let mut pos: usize = 0;
    let n = v.len();
    proof {
        reveal_strlit("->relay-file:");
    }
    loop
        invariant
            0 <= pos,
            lit@ == "->relay-file:"@,
            lit@.len() == 13,
            v@.len() <= usize::MAX,
            scan_file_triggers_spec(v@, 0) == done + scan_file_triggers_spec(v@, pos as int),
            out@.len() == done.len(),
            forall|k: int| 0 <= k < out@.len() ==> trigger_matches(#[trigger] out@[k], v@, done[k]),
        decreases v@.len() + 1 - pos,
    {
        let occ = find_occ_from(v, &lit, pos);
        let i = match occ {
            Some(i) => i,
            None => {
                proof {
                    assert(scan_file_triggers_spec(v@, pos as int) =~= Seq::<(int, int)>::empty());
                    assert(done + scan_file_triggers_spec(v@, pos as int) =~= done);
                }
                return out;
            },
        };
        proof {
            lemma_first_occ_from(v@, lit@, pos as int);
            lemma_run_bounds(v@, i + 13);
        }
        let e = crate::text::scan_id_run(v, i + 13);
        if e == i + 13 {
            pos = i + 1;
        } else {
            let id = sub_chars(v, i + 13, e);
            let raw = sub_chars(v, i, e);
            let ft = FileTrigger { id: chars_to_string(&id), raw: chars_to_string(&raw) };
            proof {
                assert(trigger_matches(ft, v@, (i as int, e as int)));
            }
            out.push(ft);
            proof {
                done = done + seq![(i as int, e as int)];
            }
            pos = e;
        }
    }
}

/// Whether a pattern is a regular expression the engine accepts, and
/// whether it matches a text. Named results of the regex engine: both
/// depend on their arguments alone; an uncompilable pattern matches
/// nothing.
pub uninterp spec fn regex_valid(p: Seq<char>) -> bool;

/// Whether the pattern compiles and matches the text.
pub uninterp spec fn regex_match(p: Seq<char>, text: Seq<char>) -> bool;

/// Relies on `regex::Regex::new`: whether the pattern is a valid regular
/// expression; the result depends on the pattern alone.
#[verifier::external_body]
fn regex_compiles(pattern: &str) -> (r: bool)
    ensures
        r == regex_valid(pattern@),
{
    regex::Regex::new(pattern).is_ok()
}

/// Relies on `regex::Regex::new` and `regex::Regex::is_match`: whether the
/// pattern compiles and matches somewhere in the line; the result depends
/// on pattern and line alone.
#[verifier::external_body]
fn prompt_regex_matches(pattern: &str, line: &str) -> (r: bool)
    ensures
        r == regex_match(pattern@, line@),
{
    regex::Regex::new(pattern).map(|re| re.is_match(line)).unwrap_or(false)
}

/// What lossy UTF-8 decoding yields on arbitrary bytes: a name for the
/// result of `String::from_utf8_lossy`, a function of the bytes alone.
pub uninterp spec fn decode_lossy(bytes: Seq<u8>) -> Seq<char>;

/// Relies on `String::from_utf8_lossy`: decodes UTF-8, substituting the
/// replacement character for invalid sequences; valid UTF-8 decodes
/// exactly.
#[verifier::external_body]
fn lossy_decode(output: &[u8]) -> (r: String)
    ensures
        r@ == decode_lossy(output@),
        vstd::utf8::valid_utf8(output@) ==> r@ == vstd::utf8::decode_utf8(output@),
{
    String::from_utf8_lossy(output).into_owned()
}

/// Declares serde_json's `Value` so that wrappers can hold and hand it
/// around; the library never looks inside one.
#[verifier::external_type_specification]
#[verifier::external_body]
pub struct ExJsonValue(serde_json::Value);

/// Relies on `serde_json::from_str::<serde_json::Value>`: parses a JSON
/// document, or fails.
#[verifier::external_body]
fn json_parse(content: &str) -> (r: Option<serde_json::Value>) {
    serde_json::from_str(content).ok()
}

/// Relies on `serde_json::Value::get`: the value at an object key, when
/// the value is an object holding it.
#[verifier::external_body]
fn json_get<'a>(v: &'a serde_json::Value, key: &str) -> (r: Option<&'a serde_json::Value>) {
    v.get(key)
}

/// Relies on `serde_json::Value::as_str`: the owned text of a JSON string
/// value.
#[verifier::external_body]
fn json_as_string(v: &serde_json::Value) -> (r: Option<String>) {
    v.as_str().map(|s| s.to_owned())
}

/// The string at a key of a JSON value, when both exist.
fn json_str_field(v: &serde_json::Value, key: &str) -> Option<String> {
    match json_get(v, key) {
        Some(x) => json_as_string(x),
        None => None,
    }
}

/// `s` with every occurrence of `p` at or after `pos` removed, scanning
/// left to right without overlap.
pub open spec fn remove_all_from(s: Seq<char>, p: Seq<char>, pos: int) -> Seq<char>
    decreases s.len() - pos
        when p.len() > 0 && pos >= 0
{
    let i = first_occ_from(s, p, pos);
    if i < 0 {
        s.subrange(pos, s.len() as int)
    } else {
        proof {
            lemma_first_occ_from(s, p, pos);
        }
        s.subrange(pos, i) + remove_all_from(s, p, i + p.len() as int)
    }
}

/// Removes every occurrence of `p` from `v`, scanning left to right.
fn remove_all_chars(v: &Vec<char>, p: &Vec<char>) -> (r: Vec<char>)
    requires
        p@.len() > 0,
    ensures
        r@ == remove_all_from(v@, p@, 0),
{
    let mut out: Vec<char> = Vec::new();
    let mut pos: usize = 0;
    let n = v.len();
    loop
        invariant
            0 <= pos <= v@.len(),
            p@.len() > 0,
            v@.len() <= usize::MAX,
            remove_all_from(v@, p@, 0) =~= out@ + remove_all_from(v@, p@, pos as int),
        decreases v@.len() + 1 - pos,
    {
        let occ = find_occ_from(v, p, pos);
        match occ {
            Some(i) => {
                proof {
                    lemma_first_occ_from(v@, p@, pos as int);
                }
                let piece = sub_chars(v, pos, i);
                crate::text::push_chars(&mut out, &piece);
                pos = i + p.len();
            },
            None => {
                let piece = sub_chars(v, pos, v.len());
                crate::text::push_chars(&mut out, &piece);
                proof {
                    assert(out@ =~= remove_all_from(v@, p@, 0));
                }
                return out;
            },
        }
    }
}

/// Prompt detection on a buffer: its last line matches the configured
/// pattern or ends in one of the common prompts.
pub open spec fn prompt_detected(pattern: Seq<char>, buffer: Seq<char>) -> bool {
    let lines = split_lines_spec(buffer);
    if lines.len() == 0 {
        false
    } else {
        let last = lines.last();
        regex_match(pattern, last) || crate::text::ends_with(last, "> "@) || crate::text::ends_with(
            last,
            "$ "@,
        ) || crate::text::ends_with(last, ">>> "@) || crate::text::ends_with(last, "codex> "@)
    }
}

/// The legacy (non-file) commands of a search region: spawns, releases and
/// fenced messages; single-line messages only when nothing else matched.
pub open spec fn legacy_commands_spec(region: Seq<char>) -> Seq<CmdSpec> {
    let main = scan_spawn_fenced(region, 0) + scan_spawn_single(region, 0) + scan_release(
        region,
        0,
    ) + scan_fenced(region, 0);
    if main.len() == 0 {
        let lines = split_lines_spec(region);
        scan_single_lines(lines, lines.len() as int)
    } else {
        main
    }
}

/// What a file-backed trigger yielded once its file was read and parsed.
#[derive(Debug, Clone)]
pub enum FileOutcome {
    /// A continuity command.
    Continuity(ContinuityCommand),
    /// A relay command.
    Command(ParsedRelayCommand),
    /// The file was missing, unreadable or not parseable.
    NoCommand,
}

/// Relay-command construction from parsed fields: spawn needs a name and a
/// CLI, release needs a name, anything else is a message and needs a
/// target.
pub open spec fn build_cmd_spec(
    kind: Seq<char>,
    to: Option<Seq<char>>,
    body: Option<Seq<char>>,
    name: Option<Seq<char>>,
    cli: Option<Seq<char>>,
    thread: Option<Seq<char>>,
    raw: Seq<char>,
) -> Option<CmdSpec> {
    let body_or_empty = match body {
        Some(b) => b,
        None => Seq::empty(),
    };
    if kind == "spawn"@ {
        match (name, cli) {
            (Some(n), Some(c)) => Some(spawn_cmd(n, c, body_or_empty, raw)),
            _ => None,
        }
    } else if kind == "release"@ {
        match name {
            Some(n) => Some(release_cmd(n, raw)),
            None => None,
        }
    } else {
        match to {
            Some(t) => Some(msg_cmd(t, body_or_empty, raw, thread)),
            None => None,
        }
    }
}

/// Builds the relay command for a parsed file message.
fn build_command(agent: &str, msg: RelayMessage, raw: &str) -> (r: Option<ParsedRelayCommand>)
    ensures
        match build_cmd_spec(
            msg.kind@,
            opt_view(msg.to),
            opt_view(msg.body),
            opt_view(msg.name),
            opt_view(msg.cli),
            opt_view(msg.thread),
            raw@,
        ) {
            Some(cs) => r matches Some(c) && cmd_matches(c, agent@, cs),
            None => r is None,
        },
{
    let kind_chars = str_to_chars(msg.kind.as_str());
    let spawn_k = str_to_chars("spawn");
    let release_k = str_to_chars("release");
    let body = match msg.body {
        Some(b) => b,
        None => String::new(),
    };
    if chars_eq(&kind_chars, &spawn_k) {
        match (msg.name, msg.cli) {
            (Some(n), Some(c)) => Some(
                ParsedRelayCommand::new_spawn(agent.to_owned(), n, c, body, raw.to_owned()),
            ),
            _ => None,
        }
    } else if chars_eq(&kind_chars, &release_k) {
        match msg.name {
            Some(n) => Some(
                ParsedRelayCommand::new_release(agent.to_owned(), n, raw.to_owned()),
            ),
            None => None,
        }
    } else {
        match msg.to {
            Some(t) => {
                let cmd = ParsedRelayCommand::new_message(
                    agent.to_owned(),
                    t,
                    body,
                    raw.to_owned(),
                );
                match msg.thread {
                    Some(th) => Some(cmd.with_thread(th)),
                    None => Some(cmd),
                }
            },
            None => None,
        }
    }
}

/// Parses the content of a file-backed message: the continuity header
/// format first, then the relay header format, then the JSON fallback
/// after shell-escape sanitization.
pub fn parse_file_content(agent: &str, content: &str, raw: &str) -> (r: FileOutcome)
    ensures
        match parse_continuity_spec(content@) {
            Some((action, body)) => r matches FileOutcome::Continuity(c) && c.cmd_type@
                == "continuity"@ && c.action@ == action && c.content@ == body,
            None => match parse_header_spec(content@) {
                Some(m) => (match build_cmd_spec(
                    m.kind,
                    m.to,
                    m.body,
                    m.name,
                    m.cli,
                    m.thread,
                    raw@,
                ) {
                    Some(cs) => r matches FileOutcome::Command(c) && cmd_matches(c, agent@, cs),
                    None => r is NoCommand,
                }),
                None => r is NoCommand || (r matches FileOutcome::Command(c) && c.from@ == agent@
                    && c.raw@ == raw@ && c.cmd_type@ == "relay_command"@ && (c.kind@ == "message"@
                    || c.kind@ == "spawn"@ || c.kind@ == "release"@)),
            },
        },
{
    if let Some(cont) = parse_continuity_format(content) {
        return FileOutcome::Continuity(ContinuityCommand::new(cont.action, cont.content));
    }
    if let Some(msg) = parse_header_format(content) {
        return match build_command(agent, msg, raw) {
            Some(c) => FileOutcome::Command(c),
            None => FileOutcome::NoCommand,
        };
    }
    // JSON fallback
    let sanitized = sanitize_json_from_shell(content);
    let v = match json_parse(sanitized.as_str()) {
        Some(v) => v,
        None => {
            return FileOutcome::NoCommand;
        },
    };
    let kind = match json_str_field(&v, "kind") {
        Some(k) => k,
        None => {
            return FileOutcome::NoCommand;
        },
    };
    let body = match json_str_field(&v, "body") {
        Some(b) => Some(b),
        None => json_str_field(&v, "task"),
    };
    let msg = RelayMessage {
        kind,
        to: json_str_field(&v, "to"),
        body,
        name: json_str_field(&v, "name"),
        cli: json_str_field(&v, "cli"),
        thread: json_str_field(&v, "thread"),
    };
    match build_command(agent, msg, raw) {
        Some(c) => FileOutcome::Command(c),
        None => FileOutcome::NoCommand,
    }
}

/// Takes the outcome paired with the first matching id, leaving the rest in
/// order.
pub open spec fn lookup_take(outs: Seq<(String, FileOutcome)>, id: Seq<char>) -> (
    Option<FileOutcome>,
    Seq<(String, FileOutcome)>,
)
    decreases outs.len(),
{
    if outs.len() == 0 {
        (None::<FileOutcome>, outs)
    } else if outs[0].0@ == id {
        (Some(outs[0].1), outs.drop_first())
    } else {
        let r = lookup_take(outs.drop_first(), id);
        (r.0, seq![outs[0]] + r.1)
    }
}

/// `lookup_take` removes exactly the first entry whose key is `id`.
pub proof fn lemma_lookup_take(outs: Seq<(String, FileOutcome)>, id: Seq<char>, idx: int)
    requires
        0 <= idx < outs.len(),
        outs[idx].0@ == id,
        forall|j: int| 0 <= j < idx ==> #[trigger] outs[j].0@ != id,
    ensures
        lookup_take(outs, id).0 == Some(outs[idx].1),
        lookup_take(outs, id).1 =~= outs.remove(idx),
    decreases outs.len(),
{
    if idx > 0 {
        lemma_lookup_take(outs.drop_first(), id, idx - 1);
        assert(outs.drop_first()[idx - 1] == outs[idx]);
        assert(seq![outs[0]] + outs.drop_first().remove(idx - 1) =~= outs.remove(idx));
    }
}

/// No entry carries the key: nothing is taken.
pub proof fn lemma_lookup_take_none(outs: Seq<(String, FileOutcome)>, id: Seq<char>)
    requires
        forall|j: int| 0 <= j < outs.len() ==> #[trigger] outs[j].0@ != id,
    ensures
        lookup_take(outs, id).0 is None,
        lookup_take(outs, id).1 =~= outs,
    decreases outs.len(),
{
    if outs.len() > 0 {
        lemma_lookup_take_none(outs.drop_first(), id);
        assert(seq![outs[0]] + lookup_take(outs.drop_first(), id).1 =~= outs);
    }
}

/// Removes and returns the outcome for the first entry with this id.
fn take_outcome(fs: &mut Vec<(String, FileOutcome)>, id: &String) -> (r: Option<FileOutcome>)
    ensures
        r == lookup_take(old(fs)@, id@).0,
        final(fs)@ == lookup_take(old(fs)@, id@).1,
{
    let mut i: usize = 0;
    while i < fs.len()
        invariant
            0 <= i <= fs@.len(),
            fs@ == old(fs)@,
            forall|j: int| 0 <= j < i ==> #[trigger] fs@[j].0@ != id@,
        decreases fs@.len() - i,
    {
        if fs[i].0 == *id {
            let ghost pre = fs@;
            let entry = fs.remove(i);
            proof {
                lemma_lookup_take(pre, id@, i as int);
            }
            return Some(entry.1);
        }
        i += 1;
    }
    proof {
        lemma_lookup_take_none(fs@, id@);
    }
    None
}

/// The commands, continuity commands and processed ids produced by the
/// first `k` triggers, each consuming its file outcome.
pub open spec fn collect_files(
    region: Seq<char>,
    trigs: Seq<(int, int)>,
    outs: Seq<(String, FileOutcome)>,
    k: int,
) -> (Seq<ParsedRelayCommand>, Seq<ContinuityCommand>, Seq<Seq<char>>, Seq<(String, FileOutcome)>)
    decreases k
        when k >= 0
{
    if k <= 0 {
        (
            Seq::<ParsedRelayCommand>::empty(),
            Seq::<ContinuityCommand>::empty(),
            Seq::<Seq<char>>::empty(),
            outs,
        )
    } else {
        let prev = collect_files(region, trigs, outs, k - 1);
        let t = trigs[k - 1];
        let id = region.subrange(t.0 + 13, t.1);
        let lt = lookup_take(prev.3, id);
        match lt.0 {
            Some(FileOutcome::Command(c)) => (prev.0.push(c), prev.1, prev.2.push(id), lt.1),
            Some(FileOutcome::Continuity(c)) => (prev.0, prev.1.push(c), prev.2.push(id), lt.1),
            Some(FileOutcome::NoCommand) => (prev.0, prev.1, prev.2, lt.1),
            None => (prev.0, prev.1, prev.2, lt.1),
        }
    }
}

/// Walks the triggers in order, consuming file outcomes.
fn process_triggers(
    trigs: &Vec<FileTrigger>,
    files: Vec<(String, FileOutcome)>,
    Ghost(region): Ghost<Seq<char>>,
    Ghost(tspec): Ghost<Seq<(int, int)>>,
) -> (r: (Vec<ParsedRelayCommand>, Vec<ContinuityCommand>, Vec<String>))
    requires
        trigs@.len() == tspec.len(),
        forall|k: int| 0 <= k < trigs@.len() ==> trigger_matches(#[trigger] trigs@[k], region, tspec[k]),
    ensures
        ({
            let c = collect_files(region, tspec, files@, tspec.len() as int);
            &&& r.0@ == c.0
            &&& r.1@ == c.1
            &&& r.2.deep_view() == c.2
        }),
{
    let mut fs = files;
    let ghost files0 = fs@;
    let mut cmds: Vec<ParsedRelayCommand> = Vec::new();
    let mut conts: Vec<ContinuityCommand> = Vec::new();
    let mut processed: Vec<String> = Vec::new();
    let mut k: usize = 0;
    while k < trigs.len()
        invariant
            0 <= k <= trigs@.len(),
            trigs@.len() == tspec.len(),
            forall|j: int|
                0 <= j < trigs@.len() ==> trigger_matches(#[trigger] trigs@[j], region, tspec[j]),
            ({
                let c = collect_files(region, tspec, files0, k as int);
                &&& cmds@ == c.0
                &&& conts@ == c.1
                &&& processed.deep_view() == c.2
                &&& fs@ == c.3
            }),
        decreases trigs@.len() - k,
    {
        let ghost prev_processed = processed.deep_view();
        let trig = &trigs[k];
        proof {
            assert(trigger_matches(trigs@[k as int], region, tspec[k as int]));
            assert(trig.id@ == region.subrange(
                tspec[k as int].0 + 13,
                tspec[k as int].1,
            ));
        }
        let ghost fs_pre = fs@;
        let outcome = take_outcome(&mut fs, &trig.id);
        proof {
            let c_prev = collect_files(region, tspec, files0, k as int);
            let sid = region.subrange(tspec[k as int].0 + 13, tspec[k as int].1);
            assert(fs_pre == c_prev.3);
            assert(outcome == lookup_take(c_prev.3, sid).0);
            assert(fs@ == lookup_take(c_prev.3, sid).1);
        }
        match outcome {
            Some(FileOutcome::Command(c)) => {
                cmds.push(c);
                processed.push(trig.id.clone());
                proof {
                    assert(processed.deep_view() =~= prev_processed.push(trig.id@));
                }
            },
            Some(FileOutcome::Continuity(c)) => {
                conts.push(c);
                processed.push(trig.id.clone());
                proof {
                    assert(processed.deep_view() =~= prev_processed.push(trig.id@));
                }
            },
            Some(FileOutcome::NoCommand) => {},
            None => {},
        }
        k += 1;
    }
    (cmds, conts, processed)
}

/// Appends the commands of `src` to `dst`, in order.
fn append_cmds(dst: &mut Vec<ParsedRelayCommand>, src: Vec<ParsedRelayCommand>)
    ensures
        final(dst)@ == old(dst)@ + src@,
{
    let ghost src0 = src@;
    let mut rest = src;
    while rest.len() > 0
        invariant
            old(dst)@ + src0 =~= dst@ + rest@,
        decreases rest@.len(),
    {
        let c = rest.remove(0);
        dst.push(c);
    }
    proof {
        assert(final(dst)@ =~= old(dst)@ + src0);
    }
}

/// Parser state: the accumulating ANSI-stripped buffer, the parse cursor,
/// the prompt pattern and the optional outbox.
pub struct OutputParser {
    /// The wrapped agent's name, used as the `from` of parsed commands.
    pub agent_name: String,
    /// The prompt-detection pattern; the given one when it compiles, else
    /// the stock pattern.
    pub prompt_pattern: String,
    /// Accumulated ANSI-stripped output.
    pub buffer: Vec<char>,
    /// Position up to which commands have been parsed.
    pub last_parsed_pos: usize,
    /// Outbox directory for file-backed messages.
    pub outbox_path: Option<String>,
}

/// `pos` clamped into `[0, len]`.
pub open spec fn clamp_pos(pos: int, len: int) -> int {
    if pos <= len {
        pos
    } else {
        len
    }
}

impl OutputParser {
    /// The unparsed region of a buffer.
    pub open spec fn region_spec(buffer: Seq<char>, pos: int) -> Seq<char> {
        buffer.subrange(clamp_pos(pos, buffer.len() as int), buffer.len() as int)
    }

    /// A parser without an outbox. An invalid prompt pattern falls back to
    /// the stock one.
    pub fn new(agent_name: String, prompt_pattern: &str) -> (r: Self)
        ensures
            r.agent_name == agent_name,
            r.prompt_pattern@ == (if regex_valid(prompt_pattern@) {
                prompt_pattern@
            } else {
                "^[>$%#] $"@
            }),
            r.buffer@.len() == 0,
            r.last_parsed_pos == 0,
            r.outbox_path is None,
    {
        let pat = if regex_compiles(prompt_pattern) {
            prompt_pattern.to_owned()
        } else {
            "^[>$%#] $".to_owned()
        };
        Self {
            agent_name,
            prompt_pattern: pat,
            buffer: Vec::new(),
            last_parsed_pos: 0,
            outbox_path: None,
        }
    }

    /// A parser with an outbox directory for file-backed messages.
    pub fn with_outbox(agent_name: String, prompt_pattern: &str, outbox_path: String) -> (r: Self)
        ensures
            r.agent_name == agent_name,
            r.prompt_pattern@ == (if regex_valid(prompt_pattern@) {
                prompt_pattern@
            } else {
                "^[>$%#] $"@
            }),
            r.buffer@.len() == 0,
            r.last_parsed_pos == 0,
            r.outbox_path matches Some(p) && p == outbox_path,
    {
        let pat = if regex_compiles(prompt_pattern) {
            prompt_pattern.to_owned()
        } else {
            "^[>$%#] $".to_owned()
        };
        Self {
            agent_name,
            prompt_pattern: pat,
            buffer: Vec::new(),
            last_parsed_pos: 0,
            outbox_path: Some(outbox_path),
        }
    }

    /// Clears the buffer and the cursor.
    pub fn clear(&mut self)
        ensures
            final(self).buffer@.len() == 0,
            final(self).last_parsed_pos == 0,
            final(self).agent_name == old(self).agent_name,
            final(self).prompt_pattern == old(self).prompt_pattern,
            final(self).outbox_path == old(self).outbox_path,
    {
        self.buffer = Vec::new();
        self.last_parsed_pos = 0;
    }

    /// The current buffer contents.
    pub fn buffer(&self) -> (r: String)
        ensures
            r@ == self.buffer@,
    {
        chars_to_string(&self.buffer)
    }

    /// Keeps at most the last `max_size` characters of the buffer,
    /// resetting the cursor when it trims.
    pub fn truncate_buffer(&mut self, max_size: usize)
        ensures
            old(self).buffer@.len() > max_size ==> {
                &&& final(self).buffer@ == old(self).buffer@.subrange(
                    old(self).buffer@.len() - max_size,
                    old(self).buffer@.len() as int,
                )
                &&& final(self).last_parsed_pos == 0
            },
            old(self).buffer@.len() <= max_size ==> *final(self) == *old(self),
            final(self).agent_name == old(self).agent_name,
            final(self).prompt_pattern == old(self).prompt_pattern,
            final(self).outbox_path == old(self).outbox_path,
    {
        if self.buffer.len() > max_size {
            let start = self.buffer.len() - max_size;
            let kept = sub_chars(&self.buffer, start, self.buffer.len());
            self.buffer = kept;
            self.last_parsed_pos = 0;
        }
    }

    /// Whether the last line of the buffer looks like a prompt.
    fn check_for_prompt(&self) -> (r: bool)
        ensures
            r == prompt_detected(self.prompt_pattern@, self.buffer@),
    {
        let lines = split_lines(&self.buffer);
        if lines.len() == 0 {
            return false;
        }
        let last = &lines[lines.len() - 1];
        proof {
            assert(last.deep_view() =~= last@);
            assert(lines.deep_view().last() == last@);
        }
        let last_str = chars_to_string(last);
        if prompt_regex_matches(self.prompt_pattern.as_str(), last_str.as_str()) {
            return true;
        }
        let p1 = str_to_chars("> ");
        let p2 = str_to_chars("$ ");
        let p3 = str_to_chars(">>> ");
        let p4 = str_to_chars("codex> ");
        crate::text::ends_with_chars(last, &p1) || crate::text::ends_with_chars(last, &p2)
            || crate::text::ends_with_chars(last, &p3) || crate::text::ends_with_chars(last, &p4)
    }

    /// Decodes a chunk of output, strips its terminal escapes, appends it
    /// to the buffer, and returns the file-backed triggers now visible in
    /// the unparsed region; without an outbox there are none.
    pub fn scan_file_requests(&mut self, output: &[u8]) -> (r: Vec<FileTrigger>)
        ensures
            final(self).buffer@ == old(self).buffer@ + crate::ansi::strip_ansi_spec(
                decode_lossy(output@),
            ),
            final(self).last_parsed_pos == old(self).last_parsed_pos,
            final(self).agent_name == old(self).agent_name,
            final(self).prompt_pattern == old(self).prompt_pattern,
            final(self).outbox_path == old(self).outbox_path,
            ({
                let region = Self::region_spec(
                    final(self).buffer@,
                    final(self).last_parsed_pos as int,
                );
                let tspec = if final(self).outbox_path is Some {
                    scan_file_triggers_spec(region, 0)
                } else {
                    Seq::<(int, int)>::empty()
                };
                &&& r@.len() == tspec.len()
                &&& forall|k: int|
                    0 <= k < r@.len() ==> trigger_matches(#[trigger] r@[k], region, tspec[k])
            }),
    {
        let text = lossy_decode(output);
        let text_chars = str_to_chars(text.as_str());
        let clean = crate::ansi::strip_ansi_chars(&text_chars);
        crate::text::push_chars(&mut self.buffer, &clean);
        if self.outbox_path.is_some() {
            let start = if self.last_parsed_pos <= self.buffer.len() {
                self.last_parsed_pos
            } else {
                self.buffer.len()
            };
            let region = sub_chars(&self.buffer, start, self.buffer.len());
            scan_file_triggers_exec(&region)
        } else {
            Vec::new()
        }
    }

    /// Finishes a chunk: turns the file outcomes for the pending triggers
    /// into commands (file commands suppress legacy parsing), otherwise
    /// parses the legacy command forms, advances the cursor when anything
    /// was parsed, detects the prompt and the ready signal, and scrubs the
    /// ready sentinel from the buffer. Returns the result and the ids of
    /// the files consumed.
    pub fn finish_chunk(&mut self, files: Vec<(String, FileOutcome)>) -> (r: (
        ParseResult,
        Vec<String>,
    ))
        ensures
            ({
                let b1 = old(self).buffer@;
                let region = Self::region_spec(b1, old(self).last_parsed_pos as int);
                let tspec = if old(self).outbox_path is Some {
                    scan_file_triggers_spec(region, 0)
                } else {
                    Seq::<(int, int)>::empty()
                };
                let c = collect_files(region, tspec, files@, tspec.len() as int);
                let legacy = legacy_commands_spec(region);
                let any_file = c.0.len() > 0 || c.1.len() > 0;
                let parsed_any = any_file || legacy.len() > 0;
                &&& (if any_file {
                    r.0.commands@ == c.0 && r.0.continuity_commands@ == c.1
                } else {
                    cmds_match(r.0.commands@, old(self).agent_name@, legacy)
                        && r.0.continuity_commands@.len() == 0
                })
                &&& r.1.deep_view() == c.2
                &&& r.0.ready_signal == crate::text::contains_seq(b1, "->pty:ready"@)
                &&& r.0.is_idle == (prompt_detected(old(self).prompt_pattern@, b1)
                    || r.0.ready_signal)
                &&& final(self).buffer@ == (if r.0.ready_signal {
                    remove_all_from(b1, "->pty:ready"@, 0)
                } else {
                    b1
                })
                &&& final(self).last_parsed_pos as int == (if parsed_any {
                    b1.len() as int
                } else {
                    old(self).last_parsed_pos as int
                })
                &&& final(self).agent_name == old(self).agent_name
                &&& final(self).prompt_pattern == old(self).prompt_pattern
                &&& final(self).outbox_path == old(self).outbox_path
            }),
    {
        let b_len = self.buffer.len();
        let start = if self.last_parsed_pos <= b_len {
            self.last_parsed_pos
        } else {
            b_len
        };
        let region = sub_chars(&self.buffer, start, b_len);
        let ghost rspec = Self::region_spec(self.buffer@, self.last_parsed_pos as int);
        proof {
            assert(region@ == rspec);
        }
        let trigs = if self.outbox_path.is_some() {
            scan_file_triggers_exec(&region)
        } else {
            Vec::new()
        };
        let ghost tspec = if self.outbox_path is Some {
            scan_file_triggers_spec(rspec, 0)
        } else {
            Seq::<(int, int)>::empty()
        };
        let (file_cmds, file_conts, processed) = process_triggers(
            &trigs,
            files,
            Ghost(rspec),
            Ghost(tspec),
        );

        let mut commands: Vec<ParsedRelayCommand> = Vec::new();
        let mut continuity_commands: Vec<ContinuityCommand> = Vec::new();
        let mut parsed_any = false;
        if file_cmds.len() > 0 || file_conts.len() > 0 {
            commands = file_cmds;
            continuity_commands = file_conts;
            parsed_any = true;
        } else {
            let agent = self.agent_name.clone();
            let sf = scan_spawn_fenced_exec(&region, agent.as_str());
            let ss = scan_spawn_single_exec(&region, agent.as_str());
            let rl = scan_release_exec(&region, agent.as_str());
            let fc = scan_fenced_exec(&region, agent.as_str());
            let have_main = sf.len() > 0 || ss.len() > 0 || rl.len() > 0 || fc.len() > 0;
            append_cmds(&mut commands, sf);
            append_cmds(&mut commands, ss);
            append_cmds(&mut commands, rl);
            append_cmds(&mut commands, fc);
            if !have_main {
                let lines = split_lines(&region);
                let sl = scan_single_lines_exec(&lines, agent.as_str());
                append_cmds(&mut commands, sl);
            }
            proof {
                assert(cmds_match(commands@, self.agent_name@, legacy_commands_spec(rspec)));
            }
            if commands.len() > 0 {
                parsed_any = true;
            }
        }
        if parsed_any {
            self.last_parsed_pos = b_len;
        }

        let is_prompt = self.check_for_prompt();
        let ready_pat = str_to_chars("->pty:ready");
        proof {
            reveal_strlit("->pty:ready");
        }
        let ready = crate::text::contains_chars(&self.buffer, &ready_pat);
        if ready {
            let scrubbed = remove_all_chars(&self.buffer, &ready_pat);
            self.buffer = scrubbed;
        }
        let result = ParseResult {
            commands,
            continuity_commands,
            is_idle: is_prompt || ready,
            ready_signal: ready,
        };
        (result, processed)
    }

    /// Processes one chunk of output without file-backed messages: decode,
    /// strip, parse, detect the prompt and the ready signal.
    pub fn process(&mut self, output: &[u8]) -> (r: ParseResult)
        ensures
            ({
                let b1 = old(self).buffer@ + crate::ansi::strip_ansi_spec(decode_lossy(output@));
                let region = Self::region_spec(b1, old(self).last_parsed_pos as int);
                let legacy = legacy_commands_spec(region);
                &&& cmds_match(r.commands@, old(self).agent_name@, legacy)
                &&& r.continuity_commands@.len() == 0
                &&& r.ready_signal == crate::text::contains_seq(b1, "->pty:ready"@)
                &&& r.is_idle == (prompt_detected(old(self).prompt_pattern@, b1) || r.ready_signal)
                &&& final(self).buffer@ == (if r.ready_signal {
                    remove_all_from(b1, "->pty:ready"@, 0)
                } else {
                    b1
                })
                &&& final(self).last_parsed_pos as int == (if legacy.len() > 0 {
                    b1.len() as int
                } else {
                    old(self).last_parsed_pos as int
                })
                &&& final(self).agent_name == old(self).agent_name
                &&& final(self).prompt_pattern == old(self).prompt_pattern
                &&& final(self).outbox_path == old(self).outbox_path
            }),
    {
        let trigs = self.scan_file_requests(output);
        let (result, _processed) = self.finish_chunk(Vec::new());
        proof {
            let b1 = old(self).buffer@ + crate::ansi::strip_ansi_spec(decode_lossy(output@));
            let region = Self::region_spec(b1, old(self).last_parsed_pos as int);
            let tspec = if old(self).outbox_path is Some {
                scan_file_triggers_spec(region, 0)
            } else {
                Seq::<(int, int)>::empty()
            };
            lemma_collect_files_empty(region, tspec, tspec.len() as int);
        }
        result
    }
}

/// With no file outcomes, the triggers yield nothing.
pub proof fn lemma_collect_files_empty(region: Seq<char>, trigs: Seq<(int, int)>, k: int)
    requires
        k >= 0,
    ensures
        collect_files(region, trigs, Seq::<(String, FileOutcome)>::empty(), k).0.len() == 0,
        collect_files(region, trigs, Seq::<(String, FileOutcome)>::empty(), k).1.len() == 0,
        collect_files(region, trigs, Seq::<(String, FileOutcome)>::empty(), k).2.len() == 0,
        collect_files(region, trigs, Seq::<(String, FileOutcome)>::empty(), k).3.len() == 0,
    decreases k,
{
    if k > 0 {
        lemma_collect_files_empty(region, trigs, k - 1);
        let prev = collect_files(region, trigs, Seq::<(String, FileOutcome)>::empty(), k - 1);
        assert(prev.3 =~= Seq::<(String, FileOutcome)>::empty());
    }
}

} // verus!
