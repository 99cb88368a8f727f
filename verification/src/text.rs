//! Character-sequence helpers shared by the parser, the injector and the
//! formatting code: conversions between `&str` and `Vec<char>`, substring
//! search, whitespace handling and ASCII case conversion.

use vstd::prelude::*;

verus! {

broadcast use vstd::string::group_string_axioms;

/// `p` occurs in `s` at position `i`.
pub open spec fn occurs_at(s: Seq<char>, p: Seq<char>, i: int) -> bool {
    0 <= i && i + p.len() <= s.len() && s.subrange(i, i + p.len() as int) =~= p
}

/// `p` occurs somewhere in `s`.
pub open spec fn contains_seq(s: Seq<char>, p: Seq<char>) -> bool {
    exists|i: int| occurs_at(s, p, i)
}

/// `s` begins with `p`.
pub open spec fn starts_with(s: Seq<char>, p: Seq<char>) -> bool {
    p.len() <= s.len() && s.subrange(0, p.len() as int) =~= p
}

/// `s` ends with `p`.
pub open spec fn ends_with(s: Seq<char>, p: Seq<char>) -> bool {
    p.len() <= s.len() && s.subrange(s.len() - p.len(), s.len() as int) =~= p
}

/// The characters of a string, as a vector.
pub fn str_to_chars(s: &str) -> (v: Vec<char>)
    ensures
        v@ == s@,
{
    let mut v: Vec<char> = Vec::new();
    for c in it: s.chars()
        invariant
            it.seq() == s@,
            v@ =~= it.seq().subrange(0, it.index() as int),
    {
        v.push(c);
    }
    assert(v@ =~= s@);
    v
}

/// Collects characters back into a `String`.
///
/// Relies on `String`'s `FromIterator<char>` impl: the result holds exactly
/// the characters of `v`, in order.
#[verifier::external_body]
pub fn chars_to_string(v: &Vec<char>) -> (s: String)
    ensures
        s@ == v@,
{
    v.iter().collect()
}

/// Does `p` occur in `s` at position `at`?
pub fn matches_at(s: &Vec<char>, p: &Vec<char>, at: usize) -> (r: bool)
    ensures
        r == occurs_at(s@, p@, at as int),
{
    if at > s.len() || p.len() > s.len() - at {
        assert(!occurs_at(s@, p@, at as int));
        return false;
    }
    let mut k: usize = 0;
    while k < p.len()
        invariant
            0 <= k <= p.len(),
            at + p.len() <= s.len(),
            forall|j: int| 0 <= j < k ==> s@[at + j] == p@[j],
        decreases p.len() - k,
    {
        if s[at + k] != p[k] {
            assert(!occurs_at(s@, p@, at as int)) by {
                assert(s@.subrange(at as int, at + p@.len() as int)[k as int] == s@[at + k]);
            }
            return false;
        }
        k += 1;
    }
    assert(s@.subrange(at as int, at + p@.len() as int) =~= p@);
    true
}

/// First position `i >= from` where `p` occurs in `s`.
pub fn find_from(s: &Vec<char>, p: &Vec<char>, from: usize) -> (r: Option<usize>)
    ensures
        match r {
            Some(i) => from <= i && occurs_at(s@, p@, i as int) && forall|j: int|
                from <= j < i ==> !occurs_at(s@, p@, j),
            None => forall|j: int| from <= j ==> !occurs_at(s@, p@, j),
        },
{
    let mut i: usize = from;
    loop
        invariant
            from <= i,
            forall|j: int| from <= j < i ==> !occurs_at(s@, p@, j),
        decreases s.len() + 1 - i,
    {
        if i > s.len() || p.len() > s.len() - i {
            assert(forall|j: int| from <= j ==> !occurs_at(s@, p@, j)) by {
                assert(forall|j: int| j >= i ==> !occurs_at(s@, p@, j));
            }
            return None;
        }
        if matches_at(s, p, i) {
            return Some(i);
        }
        i += 1;
    }
}

/// Does `p` occur anywhere in `s`?
pub fn contains_chars(s: &Vec<char>, p: &Vec<char>) -> (r: bool)
    ensures
        r == contains_seq(s@, p@),
{
    let r = find_from(s, p, 0);
    match r {
        Some(i) => {
            assert(occurs_at(s@, p@, i as int));
            true
        },
        None => {
            assert(forall|j: int| !occurs_at(s@, p@, j)) by {
                assert(forall|j: int| j < 0 ==> !occurs_at(s@, p@, j));
            }
            false
        },
    }
}

/// Are two character vectors equal?
pub fn chars_eq(a: &Vec<char>, b: &Vec<char>) -> (r: bool)
    ensures
        r == (a@ == b@),
{
    if a.len() != b.len() {
        return false;
    }
    let mut i: usize = 0;
    while i < a.len()
        invariant
            0 <= i <= a@.len(),
            a@.len() == b@.len(),
            forall|j: int| 0 <= j < i ==> a@[j] == b@[j],
        decreases a@.len() - i,
    {
        if a[i] != b[i] {
            return false;
        }
        i += 1;
    }
    proof {
        assert(a@ =~= b@);
    }
    true
}

/// Does `s` end with `p`?
pub fn ends_with_chars(s: &Vec<char>, p: &Vec<char>) -> (r: bool)
    ensures
        r == ends_with(s@, p@),
{
    if p.len() > s.len() {
        return false;
    }
    let r = matches_at(s, p, s.len() - p.len());
    proof {
        assert(occurs_at(s@, p@, s@.len() - p@.len()) == ends_with(s@, p@));
    }
    r
}

/// ASCII whitespace, the characters the supervisor's grammar treats as blank.
pub open spec fn is_space_char(c: char) -> bool {
    c == ' ' || c == '\t' || c == '\n' || c == '\r' || c == '\u{b}' || c == '\u{c}'
}

/// Executable test matching `is_space_char`.
pub fn space_char(c: char) -> (r: bool)
    ensures
        r == is_space_char(c),
{
    c == ' ' || c == '\t' || c == '\n' || c == '\r' || c == '\u{b}' || c == '\u{c}'
}

/// Word characters for agent and CLI names.
pub open spec fn is_word_char(c: char) -> bool {
    ('a' <= c && c <= 'z') || ('A' <= c && c <= 'Z') || ('0' <= c && c <= '9') || c == '_'
}

/// Executable test matching `is_word_char`.
pub fn word_char(c: char) -> (r: bool)
    ensures
        r == is_word_char(c),
{
    ('a' <= c && c <= 'z') || ('A' <= c && c <= 'Z') || ('0' <= c && c <= '9') || c == '_'
}

/// Identifier characters for file-backed message ids.
pub open spec fn is_id_char(c: char) -> bool {
    is_word_char(c) || c == '-'
}

/// Executable test matching `is_id_char`.
pub fn id_char(c: char) -> (r: bool)
    ensures
        r == is_id_char(c),
{
    word_char(c) || c == '-'
}

/// `s` with leading and trailing whitespace removed: the subrange from the
/// first non-space character to one past the last.
pub open spec fn trim_spec(s: Seq<char>) -> Seq<char>
    decreases s.len(),
{
    if s.len() == 0 {
        s
    } else if is_space_char(s[0]) {
        trim_spec(s.subrange(1, s.len() as int))
    } else if is_space_char(s[s.len() - 1]) {
        trim_spec(s.subrange(0, s.len() - 1))
    } else {
        s
    }
}

/// Trims ASCII whitespace from both ends of `v`.
pub fn trim_chars(v: &Vec<char>, lo0: usize, hi0: usize) -> (r: (usize, usize))
    requires
        lo0 <= hi0 <= v@.len(),
    ensures
        lo0 <= r.0 <= r.1 <= hi0,
        trim_spec(v@.subrange(lo0 as int, hi0 as int)) =~= v@.subrange(r.0 as int, r.1 as int),
        r.0 < r.1 ==> !is_space_char(v@[r.0 as int]) && !is_space_char(v@[r.1 - 1]),
{
    let mut lo = lo0;
    let mut hi = hi0;
    while lo < hi && space_char(v[lo])
        invariant
            lo0 <= lo <= hi <= v@.len(),
            hi == hi0,
            trim_spec(v@.subrange(lo0 as int, hi0 as int)) == trim_spec(
                v@.subrange(lo as int, hi as int),
            ),
        decreases hi - lo,
    {
        proof {
            assert(v@.subrange(lo as int, hi as int).subrange(1, hi - lo) =~= v@.subrange(
                lo + 1,
                hi as int,
            ));
        }
        lo += 1;
    }
    while lo < hi && space_char(v[hi - 1])
        invariant
            lo0 <= lo <= hi <= hi0 <= v@.len(),
            trim_spec(v@.subrange(lo0 as int, hi0 as int)) == trim_spec(
                v@.subrange(lo as int, hi as int),
            ),
            lo < hi ==> !is_space_char(v@[lo as int]),
        decreases hi - lo,
    {
        proof {
            assert(v@.subrange(lo as int, hi as int).subrange(0, hi - lo - 1) =~= v@.subrange(
                lo as int,
                hi - 1,
            ));
        }
        hi -= 1;
    }
    proof {
        let t = v@.subrange(lo as int, hi as int);
        if lo < hi {
            assert(!is_space_char(t[0]));
            assert(!is_space_char(t[t.len() - 1]));
        }
        assert(trim_spec(t) == t);
    }
    (lo, hi)
}

/// Lowercases ASCII letters, leaving everything else unchanged.
pub open spec fn to_lower_char(c: char) -> char {
    if 'A' <= c && c <= 'Z' {
        ((c as u32) + 32) as char
    } else {
        c
    }
}

/// Uppercases ASCII letters, leaving everything else unchanged.
pub open spec fn to_upper_char(c: char) -> char {
    if 'a' <= c && c <= 'z' {
        ((c as u32) - 32) as char
    } else {
        c
    }
}

/// Executable ASCII lowercasing of one character.
pub fn lower_char(c: char) -> (r: char)
    ensures
        r == to_lower_char(c),
{
    if 'A' <= c && c <= 'Z' {
        (((c as u32) + 32) as u8) as char
    } else {
        c
    }
}

/// Executable ASCII uppercasing of one character.
pub fn upper_char(c: char) -> (r: char)
    ensures
        r == to_upper_char(c),
{
    if 'a' <= c && c <= 'z' {
        (((c as u32) - 32) as u8) as char
    } else {
        c
    }
}

/// ASCII-lowercased copy of a sequence.
pub open spec fn to_lower_seq(s: Seq<char>) -> Seq<char> {
    s.map(|i: int, c: char| to_lower_char(c))
}

/// ASCII-uppercased copy of a sequence.
pub open spec fn to_upper_seq(s: Seq<char>) -> Seq<char> {
    s.map(|i: int, c: char| to_upper_char(c))
}

/// Lowercases the ASCII letters of a slice of `v`.
pub fn lower_range(v: &Vec<char>, lo: usize, hi: usize) -> (r: Vec<char>)
    requires
        lo <= hi <= v@.len(),
    ensures
        r@ =~= to_lower_seq(v@.subrange(lo as int, hi as int)),
{
    let mut out: Vec<char> = Vec::new();
    let mut i: usize = lo;
    while i < hi
        invariant
            lo <= i <= hi <= v@.len(),
            out@ =~= to_lower_seq(v@.subrange(lo as int, i as int)),
        decreases hi - i,
    {
        out.push(lower_char(v[i]));
        proof {
            assert(v@.subrange(lo as int, i + 1).drop_last() =~= v@.subrange(lo as int, i as int));
        }
        i += 1;
    }
    out
}

/// Uppercases the ASCII letters of a slice of `v`.
pub fn upper_range(v: &Vec<char>, lo: usize, hi: usize) -> (r: Vec<char>)
    requires
        lo <= hi <= v@.len(),
    ensures
        r@ =~= to_upper_seq(v@.subrange(lo as int, hi as int)),
{
    let mut out: Vec<char> = Vec::new();
    let mut i: usize = lo;
    while i < hi
        invariant
            lo <= i <= hi <= v@.len(),
            out@ =~= to_upper_seq(v@.subrange(lo as int, i as int)),
        decreases hi - i,
    {
        out.push(upper_char(v[i]));
        proof {
            assert(v@.subrange(lo as int, i + 1).drop_last() =~= v@.subrange(lo as int, i as int));
        }
        i += 1;
    }
    out
}

/// Copies the slice `v[lo..hi]` into a fresh vector.
pub fn sub_chars(v: &Vec<char>, lo: usize, hi: usize) -> (r: Vec<char>)
    requires
        lo <= hi <= v@.len(),
    ensures
        r@ =~= v@.subrange(lo as int, hi as int),
{
    let mut out: Vec<char> = Vec::new();
    let mut i: usize = lo;
    while i < hi
        invariant
            lo <= i <= hi <= v@.len(),
            out@ =~= v@.subrange(lo as int, i as int),
        decreases hi - i,
    {
        out.push(v[i]);
        proof {
            assert(v@.subrange(lo as int, i + 1).drop_last() =~= v@.subrange(lo as int, i as int));
        }
        i += 1;
    }
    out
}

/// Index of the first newline in `s`, or the length when there is none.
pub open spec fn first_nl(s: Seq<char>) -> int
    decreases s.len(),
{
    if s.len() == 0 {
        0
    } else if s[0] == '\n' {
        0
    } else {
        1 + first_nl(s.drop_first())
    }
}

/// `first_nl` stays within the sequence and points at a newline when one
/// exists.
pub proof fn lemma_first_nl_bounds(s: Seq<char>)
    ensures
        0 <= first_nl(s) <= s.len(),
        first_nl(s) < s.len() ==> s[first_nl(s)] == '\n',
        forall|j: int| 0 <= j < first_nl(s) ==> s[j] != '\n',
    decreases s.len(),
{
    if s.len() > 0 && s[0] != '\n' {
        lemma_first_nl_bounds(s.drop_first());
        assert forall|j: int| 0 <= j < first_nl(s) implies s[j] != '\n' by {
            if j > 0 {
                assert(s.drop_first()[j - 1] != '\n');
            }
        }
    }
}

/// A position before which no newline occurs, and which holds one or is the
/// end, is `first_nl`.
pub proof fn lemma_first_nl_at(s: Seq<char>, i: int)
    requires
        0 <= i <= s.len(),
        forall|j: int| 0 <= j < i ==> s[j] != '\n',
        i < s.len() ==> s[i] == '\n',
    ensures
        first_nl(s) == i,
    decreases s.len(),
{
    if s.len() > 0 && s[0] != '\n' {
        assert(i >= 1);
        assert forall|j: int| 0 <= j < i - 1 implies s.drop_first()[j] != '\n' by {
            assert(s[j + 1] != '\n');
        }
        lemma_first_nl_at(s.drop_first(), i - 1);
    }
}

/// Index of the first occurrence of `c` in `s`, or the length when there is
/// none.
pub open spec fn first_char(s: Seq<char>, c: char) -> int
    decreases s.len(),
{
    if s.len() == 0 {
        0
    } else if s[0] == c {
        0
    } else {
        1 + first_char(s.drop_first(), c)
    }
}

/// `first_char` never passes the end of the sequence.
pub proof fn lemma_first_char_at_most_len(s: Seq<char>, c: char)
    ensures
        0 <= first_char(s, c) <= s.len(),
    decreases s.len(),
{
    if s.len() > 0 && s[0] != c {
        lemma_first_char_at_most_len(s.drop_first(), c);
    }
}

/// A position before which `c` does not occur, and which holds `c` or is
/// the end, is `first_char`.
pub proof fn lemma_first_char_at(s: Seq<char>, c: char, i: int)
    requires
        0 <= i <= s.len(),
        forall|j: int| 0 <= j < i ==> s[j] != c,
        i < s.len() ==> s[i] == c,
    ensures
        first_char(s, c) == i,
    decreases s.len(),
{
    if s.len() > 0 && s[0] != c {
        assert(i >= 1);
        assert forall|j: int| 0 <= j < i - 1 implies s.drop_first()[j] != c by {
            assert(s[j + 1] != c);
        }
        lemma_first_char_at(s.drop_first(), c, i - 1);
    }
}

/// Index of the first character in `v[from..hi]` equal to `c`, or `hi`.
pub fn find_char(v: &Vec<char>, from: usize, hi: usize, c: char) -> (r: usize)
    requires
        from <= hi <= v@.len(),
    ensures
        from <= r <= hi,
        r - from == first_char(v@.subrange(from as int, hi as int), c),
        r < hi ==> v@[r as int] == c,
        forall|j: int| from <= j < r ==> v@[j] != c,
{
    let mut k: usize = from;
    while k < hi && v[k] != c
        invariant
            from <= k <= hi <= v@.len(),
            forall|j: int| from <= j < k ==> v@[j] != c,
        decreases hi - k,
    {
        k += 1;
    }
    proof {
        let sub = v@.subrange(from as int, hi as int);
        assert forall|j: int| 0 <= j < k - from implies sub[j] != c by {
            assert(v@[from + j] != c);
        }
        lemma_first_char_at(sub, c, k - from);
    }
    k
}

/// First position at or after `from` where `p` occurs in `s`, or `-1`.
pub open spec fn first_occ_from(s: Seq<char>, p: Seq<char>, from: int) -> int
    decreases s.len() + 1 - from
        when from >= 0
{
    if from + p.len() > s.len() {
        -1
    } else if occurs_at(s, p, from) {
        from
    } else {
        first_occ_from(s, p, from + 1)
    }
}

/// Where `first_occ_from` lands: the first occurrence, or `-1` when there
/// is none.
pub proof fn lemma_first_occ_from(s: Seq<char>, p: Seq<char>, from: int)
    requires
        0 <= from,
    ensures
        first_occ_from(s, p, from) == -1 || first_occ_from(s, p, from) >= from,
        first_occ_from(s, p, from) == -1 ==> forall|j: int| from <= j ==> !occurs_at(s, p, j),
        first_occ_from(s, p, from) >= 0 ==> {
            let i = first_occ_from(s, p, from);
            &&& from <= i
            &&& occurs_at(s, p, i)
            &&& forall|j: int| from <= j < i ==> !occurs_at(s, p, j)
        },
    decreases s.len() + 1 - from,
{
    if from + p.len() > s.len() {
        assert(forall|j: int| from <= j ==> !occurs_at(s, p, j));
    } else if !occurs_at(s, p, from) {
        lemma_first_occ_from(s, p, from + 1);
    }
}

/// Executable counterpart of `first_occ_from`, searching `v` from `from`.
pub fn find_occ_from(v: &Vec<char>, p: &Vec<char>, from: usize) -> (r: Option<usize>)
    ensures
        match r {
            Some(i) => from <= i && i + p@.len() <= v@.len() && first_occ_from(
                v@,
                p@,
                from as int,
            ) == i,
            None => first_occ_from(v@, p@, from as int) == -1,
        },
{
    let r = find_from(v, p, from);
    proof {
        lemma_first_occ_from(v@, p@, from as int);
        let f = first_occ_from(v@, p@, from as int);
        match r {
            Some(i) => {
                if f == -1 {
                    assert(!occurs_at(v@, p@, i as int));
                }
                assert(f >= 0);
                if f < i {
                    assert(!occurs_at(v@, p@, f));
                }
                if i < f {
                    assert(!occurs_at(v@, p@, i as int));
                }
            },
            None => {
                if f >= 0 {
                    assert(occurs_at(v@, p@, f));
                }
            },
        }
    }
    r
}

/// End of the maximal run of word characters starting at `j`.
pub open spec fn word_run_end(s: Seq<char>, j: int) -> int
    decreases s.len() - j
        when j >= 0
{
    if 0 <= j < s.len() && is_word_char(s[j]) {
        word_run_end(s, j + 1)
    } else {
        j
    }
}

/// End of the maximal run of whitespace starting at `j`.
pub open spec fn space_run_end(s: Seq<char>, j: int) -> int
    decreases s.len() - j
        when j >= 0
{
    if 0 <= j < s.len() && is_space_char(s[j]) {
        space_run_end(s, j + 1)
    } else {
        j
    }
}

/// End of the maximal run of non-whitespace starting at `j`.
pub open spec fn nonspace_run_end(s: Seq<char>, j: int) -> int
    decreases s.len() - j
        when j >= 0
{
    if 0 <= j < s.len() && !is_space_char(s[j]) {
        nonspace_run_end(s, j + 1)
    } else {
        j
    }
}

/// End of the maximal run of id characters starting at `j`.
pub open spec fn id_run_end(s: Seq<char>, j: int) -> int
    decreases s.len() - j
        when j >= 0
{
    if 0 <= j < s.len() && is_id_char(s[j]) {
        id_run_end(s, j + 1)
    } else {
        j
    }
}

/// Runs stay within the sequence.
pub proof fn lemma_run_bounds(s: Seq<char>, j: int)
    requires
        0 <= j <= s.len(),
    ensures
        j <= word_run_end(s, j) <= s.len(),
        j <= space_run_end(s, j) <= s.len(),
        j <= nonspace_run_end(s, j) <= s.len(),
        j <= id_run_end(s, j) <= s.len(),
    decreases s.len() - j,
{
    if j < s.len() {
        lemma_run_bounds(s, j + 1);
    }
}

/// Executable scan of a word run.
pub fn scan_word_run(v: &Vec<char>, from: usize) -> (r: usize)
    requires
        from <= v@.len(),
    ensures
        from <= r <= v@.len(),
        r == word_run_end(v@, from as int),
{
    let mut k: usize = from;
    while k < v.len() && word_char(v[k])
        invariant
            from <= k <= v@.len(),
            word_run_end(v@, from as int) == word_run_end(v@, k as int),
        decreases v@.len() - k,
    {
        k += 1;
    }
    k
}

/// Executable scan of a whitespace run.
pub fn scan_space_run(v: &Vec<char>, from: usize) -> (r: usize)
    requires
        from <= v@.len(),
    ensures
        from <= r <= v@.len(),
        r == space_run_end(v@, from as int),
{
    let mut k: usize = from;
    while k < v.len() && space_char(v[k])
        invariant
            from <= k <= v@.len(),
            space_run_end(v@, from as int) == space_run_end(v@, k as int),
        decreases v@.len() - k,
    {
        k += 1;
    }
    k
}

/// Executable scan of a non-whitespace run.
pub fn scan_nonspace_run(v: &Vec<char>, from: usize) -> (r: usize)
    requires
        from <= v@.len(),
    ensures
        from <= r <= v@.len(),
        r == nonspace_run_end(v@, from as int),
{
    let mut k: usize = from;
    while k < v.len() && !space_char(v[k])
        invariant
            from <= k <= v@.len(),
            nonspace_run_end(v@, from as int) == nonspace_run_end(v@, k as int),
        decreases v@.len() - k,
    {
        k += 1;
    }
    k
}

/// Executable scan of an id-character run.
pub fn scan_id_run(v: &Vec<char>, from: usize) -> (r: usize)
    requires
        from <= v@.len(),
    ensures
        from <= r <= v@.len(),
        r == id_run_end(v@, from as int),
{
    let mut k: usize = from;
    while k < v.len() && id_char(v[k])
        invariant
            from <= k <= v@.len(),
            id_run_end(v@, from as int) == id_run_end(v@, k as int),
        decreases v@.len() - k,
    {
        k += 1;
    }
    k
}

/// A line with any trailing carriage return removed.
pub open spec fn strip_cr(l: Seq<char>) -> Seq<char> {
    if l.len() > 0 && l[l.len() - 1] == '\r' {
        l.drop_last()
    } else {
        l
    }
}

/// The lines of `s`, split on newlines, each without its trailing carriage
/// return; a trailing newline yields no empty final line.
pub open spec fn split_lines_spec(s: Seq<char>) -> Seq<Seq<char>>
    decreases s.len(),
{
    if s.len() == 0 {
        Seq::<Seq<char>>::empty()
    } else {
        let i = first_nl(s);
        proof {
            lemma_first_nl_bounds(s);
        }
        if i >= s.len() {
            seq![strip_cr(s)]
        } else {
            seq![strip_cr(s.subrange(0, i))] + split_lines_spec(
                s.subrange(i + 1, s.len() as int),
            )
        }
    }
}

/// The lines of `v`, as vectors.
pub fn split_lines(v: &Vec<char>) -> (r: Vec<Vec<char>>)
    ensures
        r.deep_view() == split_lines_spec(v@),
{
    let mut out: Vec<Vec<char>> = Vec::new();
    let mut pos: usize = 0;
    proof {
        assert(v@.subrange(0, v@.len() as int) =~= v@);
        assert(out.deep_view() =~= Seq::<Seq<char>>::empty());
    }
    while pos < v.len()
        invariant
            0 <= pos <= v@.len(),
            out.deep_view() + split_lines_spec(v@.subrange(pos as int, v@.len() as int))
                =~= split_lines_spec(v@),
        decreases v@.len() - pos,
    {
        let ghost tail = v@.subrange(pos as int, v@.len() as int);
        // find the next newline
        let mut k: usize = pos;
        while k < v.len() && v[k] != '\n'
            invariant
                pos <= k <= v@.len(),
                forall|j: int| pos <= j < k ==> v@[j] != '\n',
            decreases v@.len() - k,
        {
            k += 1;
        }
        proof {
            assert forall|j: int| 0 <= j < k - pos implies tail[j] != '\n' by {
                assert(v@[pos + j] != '\n');
            }
            lemma_first_nl_at(tail, k - pos);
        }
        // cut the line, dropping a trailing carriage return
        let mut hi = k;
        if hi > pos && v[hi - 1] == '\r' {
            hi -= 1;
        }
        let line = sub_chars(v, pos, hi);
        proof {
            if k < v@.len() {
                assert(tail.subrange(0, k - pos) =~= v@.subrange(pos as int, k as int));
                assert(strip_cr(tail.subrange(0, k - pos)) =~= line@);
                assert(tail.subrange(k - pos + 1, tail.len() as int) =~= v@.subrange(
                    k + 1,
                    v@.len() as int,
                ));
            } else {
                assert(strip_cr(tail) =~= line@);
            }
        }
        let ghost prev_dv = out.deep_view();
        let ghost line_view = line@;
        out.push(line);
        proof {
            assert(out@.last().deep_view() =~= line_view);
            assert(out.deep_view() =~= prev_dv.push(line_view));
        }
        if k < v.len() {
            pos = k + 1;
            proof {
                let tail2 = v@.subrange(pos as int, v@.len() as int);
                assert(prev_dv.push(line_view) + split_lines_spec(tail2) =~= prev_dv + (seq![
                    line_view,
                ] + split_lines_spec(tail2)));
                assert(seq![line_view] + split_lines_spec(tail2) =~= split_lines_spec(tail));
            }
        } else {
            pos = v.len();
            proof {
                assert(split_lines_spec(v@.subrange(pos as int, v@.len() as int))
                    =~= Seq::<Seq<char>>::empty());
                assert(seq![line_view] =~= split_lines_spec(tail));
                assert(prev_dv.push(line_view) + Seq::<Seq<char>>::empty() =~= prev_dv + seq![
                    line_view,
                ]);
            }
        }
    }
    proof {
        assert(split_lines_spec(v@.subrange(pos as int, v@.len() as int))
            =~= Seq::<Seq<char>>::empty());
        assert(out.deep_view() =~= split_lines_spec(v@));
    }
    out
}

/// Appends the characters of `src` to `dst`.
pub fn push_chars(dst: &mut Vec<char>, src: &Vec<char>)
    ensures
        final(dst)@ =~= old(dst)@ + src@,
{
    let mut i: usize = 0;
    while i < src.len()
        invariant
            0 <= i <= src@.len(),
            dst@ =~= old(dst)@ + src@.subrange(0, i as int),
        decreases src@.len() - i,
    {
        dst.push(src[i]);
        proof {
            assert(src@.subrange(0, i + 1).drop_last() =~= src@.subrange(0, i as int));
        }
        i += 1;
    }
}

/// Appends the characters of a string to `dst`.
pub fn push_str_chars(dst: &mut Vec<char>, src: &str)
    ensures
        final(dst)@ =~= old(dst)@ + src@,
{
    let v = str_to_chars(src);
    push_chars(dst, &v);
}

} // verus!
