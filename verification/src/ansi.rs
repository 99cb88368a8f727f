//! Terminal-escape stripping used across the supervisor: CSI and OSC
//! sequences, character-set designations and simple one-character escapes
//! are removed; everything else is kept.

use vstd::prelude::*;

use crate::text::{chars_to_string, str_to_chars};

verus! {

/// Final byte of a CSI sequence: a letter, `@` or a backtick.
pub open spec fn is_csi_final(c: char) -> bool {
    ('a' <= c && c <= 'z') || ('A' <= c && c <= 'Z') || c == '@' || c == '`'
}

/// One past the last character of a CSI sequence whose parameters start at
/// `j`: the position after the first final byte, or the end of the text.
pub open spec fn scan_csi(s: Seq<char>, j: int) -> int
    decreases s.len() - j,
{
    if j < 0 || j >= s.len() {
        s.len() as int
    } else if is_csi_final(s[j]) {
        j + 1
    } else {
        scan_csi(s, j + 1)
    }
}

/// One past the last character of an OSC sequence whose payload starts at
/// `j`: after the first BEL, after the first `ESC \` pair, or the end of the
/// text.
pub open spec fn scan_osc(s: Seq<char>, j: int) -> int
    decreases s.len() - j,
{
    if j < 0 || j >= s.len() {
        s.len() as int
    } else if s[j] == '\u{7}' {
        j + 1
    } else if s[j] == '\u{1b}' && j + 1 < s.len() && s[j + 1] == '\\' {
        j + 2
    } else {
        scan_osc(s, j + 1)
    }
}

/// How many characters an escape sequence starting at position `i` (which
/// holds ESC) occupies.
pub open spec fn esc_skip_at(s: Seq<char>, i: int) -> int {
    if i + 1 >= s.len() {
        1
    } else if s[i + 1] == '[' {
        scan_csi(s, i + 2) - i
    } else if s[i + 1] == ']' {
        scan_osc(s, i + 2) - i
    } else if s[i + 1] == '(' || s[i + 1] == ')' || s[i + 1] == '*' || s[i + 1] == '+' {
        if i + 3 <= s.len() {
            3
        } else {
            s.len() - i
        }
    } else if '0' <= s[i + 1] && s[i + 1] <= '~' {
        2
    } else {
        1
    }
}

proof fn lemma_scan_csi_bounds(s: Seq<char>, j: int)
    requires
        0 <= j,
    ensures
        j <= scan_csi(s, j) || s.len() <= scan_csi(s, j),
        scan_csi(s, j) <= s.len(),
    decreases s.len() - j,
{
    if j < s.len() && !is_csi_final(s[j]) {
        lemma_scan_csi_bounds(s, j + 1);
    }
}

proof fn lemma_scan_osc_bounds(s: Seq<char>, j: int)
    requires
        0 <= j,
    ensures
        j <= scan_osc(s, j) || s.len() <= scan_osc(s, j),
        scan_osc(s, j) <= s.len(),
    decreases s.len() - j,
{
    if j < s.len() && s[j] != '\u{7}' && !(s[j] == '\u{1b}' && j + 1 < s.len() && s[j + 1]
        == '\\') {
        lemma_scan_osc_bounds(s, j + 1);
    }
}

/// The escape starting at `i` spans at least one character and never past
/// the end of the text.
pub proof fn lemma_esc_skip_bounds(s: Seq<char>, i: int)
    requires
        0 <= i < s.len(),
        s[i] == '\u{1b}',
    ensures
        1 <= esc_skip_at(s, i),
        i + esc_skip_at(s, i) <= s.len(),
{
    if i + 1 < s.len() {
        if s[i + 1] == '[' {
            lemma_scan_csi_bounds(s, i + 2);
        } else if s[i + 1] == ']' {
            lemma_scan_osc_bounds(s, i + 2);
        }
    }
}

/// The text from position `i` on, with escape sequences removed.
pub open spec fn strip_from(s: Seq<char>, i: int) -> Seq<char>
    decreases s.len() - i,
{
    if i < 0 || i >= s.len() {
        Seq::<char>::empty()
    } else if s[i] != '\u{1b}' {
        seq![s[i]] + strip_from(s, i + 1)
    } else {
        proof {
            lemma_esc_skip_bounds(s, i);
        }
        strip_from(s, i + esc_skip_at(s, i))
    }
}

/// The whole text with escape sequences removed.
pub open spec fn strip_ansi_spec(s: Seq<char>) -> Seq<char> {
    strip_from(s, 0)
}

/// Strips escape sequences from a character vector.
pub fn strip_ansi_chars(v: &Vec<char>) -> (out: Vec<char>)
    ensures
        out@ == strip_ansi_spec(v@),
{
    let mut out: Vec<char> = Vec::new();
    let mut i: usize = 0;
    while i < v.len()
        invariant
            0 <= i <= v@.len(),
            strip_from(v@, 0) =~= out@ + strip_from(v@, i as int),
        decreases v@.len() - i,
    {
        let c = v[i];
        if c != '\u{1b}' {
            out.push(c);
            i += 1;
        } else {
            proof {
                lemma_esc_skip_bounds(v@, i as int);
            }
            let ghost skip = esc_skip_at(v@, i as int);
            if i + 1 >= v.len() {
                assert(skip == 1);
                i += 1;
            } else {
                let d = v[i + 1];
                if d == '[' {
                    let mut j: usize = i + 2;
                    while j < v.len() && !(('a' <= v[j] && v[j] <= 'z') || ('A' <= v[j] && v[j]
                        <= 'Z') || v[j] == '@' || v[j] == '`')
                        invariant
                            i + 2 <= j <= v@.len(),
                            scan_csi(v@, i + 2) == scan_csi(v@, j as int),
                        decreases v@.len() - j,
                    {
                        j += 1;
                    }
                    if j < v.len() {
                        assert(scan_csi(v@, j as int) == j + 1);
                        i = j + 1;
                    } else {
                        assert(scan_csi(v@, j as int) == v@.len());
                        i = j;
                    }
                } else if d == ']' {
                    let mut j: usize = i + 2;
                    let mut end: usize = 0;
                    let mut found = false;
                    while j < v.len() && !found
                        invariant
                            i + 2 <= j <= v@.len(),
                            scan_osc(v@, i + 2) == if found {
                                end as int
                            } else {
                                scan_osc(v@, j as int)
                            },
                            found ==> end <= v@.len(),
                        decreases v@.len() - j + (if found { 0int } else { 1int }),
                    {
                        if v[j] == '\u{7}' {
                            end = j + 1;
                            found = true;
                        } else if v[j] == '\u{1b}' && j + 1 < v.len() && v[j + 1] == '\\' {
                            end = j + 2;
                            found = true;
                        } else {
                            j += 1;
                        }
                    }
                    if found {
                        i = end;
                    } else {
                        assert(scan_osc(v@, j as int) == v@.len());
                        i = j;
                    }
                } else if d == '(' || d == ')' || d == '*' || d == '+' {
                    if v.len() - i >= 3 {
                        assert(skip == 3);
                        i = i + 3;
                    } else {
                        assert(i + skip == v@.len());
                        i = v.len();
                    }
                } else if '0' <= d && d <= '~' {
                    assert(skip == 2);
                    i = i + 2;
                } else {
                    assert(skip == 1);
                    i = i + 1;
                }
            }
        }
    }
    assert(out@ =~= strip_from(v@, 0));
    out
}

/// Strips ANSI escape sequences from text.
pub fn strip_ansi(text: &str) -> (r: String)
    ensures
        r@ == strip_ansi_spec(text@),
{
    let v = str_to_chars(text);
    let out = strip_ansi_chars(&v);
    chars_to_string(&out)
}

/// Stripping never leaves an ESC character in the result.
pub proof fn lemma_strip_no_esc(s: Seq<char>, i: int)
    requires
        0 <= i,
    ensures
        forall|k: int| 0 <= k < strip_from(s, i).len() ==> #[trigger] strip_from(s, i)[k]
            != '\u{1b}',
    decreases s.len() - i,
{
    if i < s.len() {
        if s[i] != '\u{1b}' {
            lemma_strip_no_esc(s, i + 1);
            assert forall|k: int| 0 <= k < strip_from(s, i).len() implies #[trigger] strip_from(
                s,
                i,
            )[k] != '\u{1b}' by {
                if k == 0 {
                    assert(strip_from(s, i)[0] == s[i]);
                } else {
                    assert(strip_from(s, i)[k] == strip_from(s, i + 1)[k - 1]);
                }
            }
        } else {
            lemma_esc_skip_bounds(s, i);
            lemma_strip_no_esc(s, i + esc_skip_at(s, i));
            assert forall|k: int| 0 <= k < strip_from(s, i).len() implies #[trigger] strip_from(
                s,
                i,
            )[k] != '\u{1b}' by {
                assert(strip_from(s, i)[k] == strip_from(s, i + esc_skip_at(s, i))[k]);
            }
        }
    }
}

/// On text without ESC characters, stripping changes nothing.
pub proof fn lemma_strip_clean_identity(s: Seq<char>, i: int)
    requires
        0 <= i <= s.len(),
        forall|k: int| 0 <= k < s.len() ==> s[k] != '\u{1b}',
    ensures
        strip_from(s, i) =~= s.subrange(i, s.len() as int),
    decreases s.len() - i,
{
    if i < s.len() {
        lemma_strip_clean_identity(s, i + 1);
        assert(seq![s[i]] + s.subrange(i + 1, s.len() as int) =~= s.subrange(i, s.len() as int));
    }
}

/// ANSI stripping is idempotent: stripping a stripped text is the identity.
pub proof fn lemma_strip_ansi_idempotent(s: Seq<char>)
    ensures
        strip_ansi_spec(strip_ansi_spec(s)) == strip_ansi_spec(s),
{
    let t = strip_ansi_spec(s);
    lemma_strip_no_esc(s, 0);
    lemma_strip_clean_identity(t, 0);
    assert(t.subrange(0, t.len() as int) =~= t);
}

} // verus!
