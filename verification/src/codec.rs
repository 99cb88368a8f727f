//! The JSON line format for parsed relay commands: a verified serializer,
//! a verified parser for the same shape, and the proof that parsing a
//! serialized command gives the command back.

use vstd::prelude::*;

use crate::protocol::ParsedRelayCommand;
use crate::text::{chars_to_string, occurs_at, starts_with, str_to_chars};

verus! {

broadcast use vstd::string::group_string_axioms;

/// Hex digit for a nibble.
pub open spec fn hex_digit(v: int) -> char {
    if v < 10 {
        (('0' as u32) + v) as char
    } else {
        (('a' as u32) + (v - 10)) as char
    }
}

/// Value of a hex digit, or `-1`.
pub open spec fn hex_val(c: char) -> int {
    if '0' <= c && c <= '9' {
        (c as u32) - ('0' as u32)
    } else if 'a' <= c && c <= 'f' {
        (c as u32) - ('a' as u32) + 10
    } else {
        -1
    }
}

/// The JSON escape of one character: quotes, backslashes and the named
/// control characters get two-character escapes, other control characters
/// a `\u00..` escape, everything else stands for itself.
pub open spec fn esc_char(c: char) -> Seq<char> {
    if c == '"' {
        seq!['\\', '"']
    } else if c == '\\' {
        seq!['\\', '\\']
    } else if c == '\n' {
        seq!['\\', 'n']
    } else if c == '\r' {
        seq!['\\', 'r']
    } else if c == '\t' {
        seq!['\\', 't']
    } else if (c as u32) < 0x20 {
        seq!['\\', 'u', '0', '0', hex_digit((c as u32) as int / 16), hex_digit((c as u32) as int % 16)]
    } else {
        seq![c]
    }
}

/// The JSON escape of a string body.
pub open spec fn esc(s: Seq<char>) -> Seq<char>
    decreases s.len(),
{
    if s.len() == 0 {
        Seq::empty()
    } else {
        esc_char(s[0]) + esc(s.drop_first())
    }
}

/// Reads a JSON string body up to its closing quote: the decoded content
/// and how many characters were consumed, the quote included.
pub open spec fn scan_str(s: Seq<char>) -> Option<(Seq<char>, int)>
    decreases s.len(),
{
    if s.len() == 0 {
        None
    } else if s[0] == '"' {
        Some((Seq::empty(), 1))
    } else if s[0] == '\\' {
        if s.len() < 2 {
            None
        } else {
            let n = s[1];
            if n == '"' || n == '\\' {
                scan_cons(n, scan_str(s.skip(2)), 2)
            } else if n == 'n' {
                scan_cons('\n', scan_str(s.skip(2)), 2)
            } else if n == 'r' {
                scan_cons('\r', scan_str(s.skip(2)), 2)
            } else if n == 't' {
                scan_cons('\t', scan_str(s.skip(2)), 2)
            } else if n == 'u' {
                if s.len() < 6 || s[2] != '0' || s[3] != '0' || hex_val(s[4]) < 0 || hex_val(s[5])
                    < 0 {
                    None
                } else {
                    let v = hex_val(s[4]) * 16 + hex_val(s[5]);
                    if v < 0x20 {
                        scan_cons((v as u32) as char, scan_str(s.skip(6)), 6)
                    } else {
                        None
                    }
                }
            } else {
                None
            }
        }
    } else {
        scan_cons(s[0], scan_str(s.drop_first()), 1)
    }
}

/// Prepends a decoded character to a scan result.
pub open spec fn scan_cons(c: char, rest: Option<(Seq<char>, int)>, used: int) -> Option<
    (Seq<char>, int),
> {
    match rest {
        Some((t, e)) => Some((seq![c] + t, e + used)),
        None => None,
    }
}

/// Scanning an escaped body followed by a quote recovers the body exactly
/// and stops at the quote.
pub proof fn lemma_scan_esc(x: Seq<char>, r: Seq<char>)
    ensures
        scan_str(esc(x) + seq!['"'] + r) == Some((x, esc(x).len() + 1 as int)),
    decreases x.len(),
{
    let s = esc(x) + seq!['"'] + r;
    if x.len() == 0 {
        assert(esc(x) =~= Seq::<char>::empty());
        assert(s[0] == '"');
        assert(x =~= Seq::<char>::empty());
    } else {
        let c = x[0];
        let tail = esc(x.drop_first()) + seq!['"'] + r;
        lemma_scan_esc(x.drop_first(), r);
        assert(s =~= esc_char(c) + tail);
        let u = c as u32;
        vstd::utf8::char_is_scalar(c);
        if c == '"' || c == '\\' {
            assert(s[0] == '\\' && s[1] == c);
            assert(s.skip(2) =~= tail);
            assert(seq![c] + x.drop_first() =~= x);
        } else if c == '\n' {
            assert(s[0] == '\\' && s[1] == 'n');
            assert(s.skip(2) =~= tail);
            assert(seq![c] + x.drop_first() =~= x);
        } else if c == '\r' {
            assert(s[0] == '\\' && s[1] == 'r');
            assert(s.skip(2) =~= tail);
            assert(seq![c] + x.drop_first() =~= x);
        } else if c == '\t' {
            assert(s[0] == '\\' && s[1] == 't');
            assert(s.skip(2) =~= tail);
            assert(seq![c] + x.drop_first() =~= x);
        } else if u < 0x20 {
            assert(s[0] == '\\' && s[1] == 'u' && s[2] == '0' && s[3] == '0');
            assert(s[4] == hex_digit(u as int / 16) && s[5] == hex_digit(u as int % 16));
            lemma_hex_round_trip(u as int / 16);
            lemma_hex_round_trip(u as int % 16);
            assert(hex_val(s[4]) * 16 + hex_val(s[5]) == u);
            vstd::utf8::char_u32_cast(c, u);
            assert(s.skip(6) =~= tail);
            assert(seq![c] + x.drop_first() =~= x);
        } else {
            assert(s[0] == c && c != '"' && c != '\\');
            assert(s.drop_first() =~= tail);
            assert(seq![c] + x.drop_first() =~= x);
        }
    }
}

/// The parsed fields of a command's JSON line.
pub struct CmdJson {
    /// Command kind.
    pub kind: Seq<char>,
    /// Sender.
    pub sender: Seq<char>,
    /// Target.
    pub to: Seq<char>,
    /// Body.
    pub body: Seq<char>,
    /// Raw matched text.
    pub raw: Seq<char>,
    /// Thread, when present.
    pub thread: Option<Seq<char>>,
    /// Spawn name, when present.
    pub spawn_name: Option<Seq<char>>,
    /// Spawn CLI, when present.
    pub spawn_cli: Option<Seq<char>>,
    /// Spawn task, when present.
    pub spawn_task: Option<Seq<char>>,
    /// Release target, when present.
    pub release_name: Option<Seq<char>>,
}

/// An optional field's serialization: nothing, or the key and its escaped
/// value.
pub open spec fn opt_field(prefix: Seq<char>, o: Option<Seq<char>>) -> Seq<char> {
    match o {
        Some(v) => prefix + esc(v) + seq!['"'],
        None => Seq::empty(),
    }
}

/// The serialized optional tail from the release-name key on.
pub open spec fn tail_rn(c: CmdJson) -> Seq<char> {
    opt_field(",\"release_name\":\""@, c.release_name) + seq!['}']
}

/// The serialized optional tail from the spawn-task key on.
pub open spec fn tail_st(c: CmdJson) -> Seq<char> {
    opt_field(",\"spawn_task\":\""@, c.spawn_task) + tail_rn(c)
}

/// The serialized optional tail from the spawn-cli key on.
pub open spec fn tail_sc(c: CmdJson) -> Seq<char> {
    opt_field(",\"spawn_cli\":\""@, c.spawn_cli) + tail_st(c)
}

/// The serialized optional tail from the spawn-name key on.
pub open spec fn tail_sn(c: CmdJson) -> Seq<char> {
    opt_field(",\"spawn_name\":\""@, c.spawn_name) + tail_sc(c)
}

/// The whole serialized optional tail.
pub open spec fn json_tail(c: CmdJson) -> Seq<char> {
    opt_field(",\"thread\":\""@, c.thread) + tail_sn(c)
}

/// The JSON line of a command: the fixed fields in order, then the
/// optional fields that are present, in order.
pub open spec fn json_of_cmd(c: CmdJson) -> Seq<char> {
    "{\"type\":\"relay_command\",\"kind\":\""@ + esc(c.kind) + seq!['"'] + ",\"from\":\""@ + esc(
        c.sender,
    ) + seq!['"'] + ",\"to\":\""@ + esc(c.to) + seq!['"'] + ",\"body\":\""@ + esc(c.body)
        + seq!['"'] + ",\"raw\":\""@ + esc(c.raw) + seq!['"'] + json_tail(c)
}

/// Consumes a literal prefix.
pub open spec fn eat(s: Seq<char>, l: Seq<char>) -> Option<Seq<char>> {
    if starts_with(s, l) {
        Some(s.skip(l.len() as int))
    } else {
        None
    }
}

/// Reads one required string field: the literal before it, then the body
/// up to the closing quote.
pub open spec fn read_field(s: Seq<char>, l: Seq<char>) -> Option<(Seq<char>, Seq<char>)> {
    match eat(s, l) {
        Some(s1) => match scan_str(s1) {
            Some((v, e)) => Some((v, s1.skip(e))),
            None => None,
        },
        None => None,
    }
}

/// Reads one optional field: absent when the key literal does not follow.
pub open spec fn step_opt(s: Seq<char>, prefix: Seq<char>) -> Option<
    (Option<Seq<char>>, Seq<char>),
> {
    if starts_with(s, prefix) {
        match scan_str(s.skip(prefix.len() as int)) {
            Some((v, e)) => Some((Some(v), s.skip(prefix.len() + e))),
            None => None,
        }
    } else {
        Some((None, s))
    }
}

/// Parses the five required fields, returning them and the rest.
pub open spec fn parse_head(s: Seq<char>) -> Option<
    (Seq<char>, Seq<char>, Seq<char>, Seq<char>, Seq<char>, Seq<char>),
> {
    match read_field(s, "{\"type\":\"relay_command\",\"kind\":\""@) {
        None => None,
        Some((kind, s1)) => match read_field(s1, ",\"from\":\""@) {
            None => None,
            Some((sender, s2)) => match read_field(s2, ",\"to\":\""@) {
                None => None,
                Some((to, s3)) => match read_field(s3, ",\"body\":\""@) {
                    None => None,
                    Some((body, s4)) => match read_field(s4, ",\"raw\":\""@) {
                        None => None,
                        Some((raw, s5)) => Some((kind, sender, to, body, raw, s5)),
                    },
                },
            },
        },
    }
}

/// Parses the optional tail and the closing brace.
pub open spec fn parse_tail(s: Seq<char>) -> Option<
    (
        Option<Seq<char>>,
        Option<Seq<char>>,
        Option<Seq<char>>,
        Option<Seq<char>>,
        Option<Seq<char>>,
    ),
> {
    match step_opt(s, ",\"thread\":\""@) {
        None => None,
        Some((thread, s6)) => match step_opt(s6, ",\"spawn_name\":\""@) {
            None => None,
            Some((spawn_name, s7)) => match step_opt(s7, ",\"spawn_cli\":\""@) {
                None => None,
                Some((spawn_cli, s8)) => match step_opt(s8, ",\"spawn_task\":\""@) {
                    None => None,
                    Some((spawn_task, s9)) => match step_opt(s9, ",\"release_name\":\""@) {
                        None => None,
                        Some((release_name, s10)) => if s10 =~= seq!['}'] {
                            Some((thread, spawn_name, spawn_cli, spawn_task, release_name))
                        } else {
                            None
                        },
                    },
                },
            },
        },
    }
}

/// Parses a command's JSON line back into its fields.
pub open spec fn parse_cmd_json(s: Seq<char>) -> Option<CmdJson> {
    match parse_head(s) {
        None => None,
        Some((kind, sender, to, body, raw, rest)) => match parse_tail(rest) {
            None => None,
            Some((thread, spawn_name, spawn_cli, spawn_task, release_name)) => Some(
                CmdJson {
                    kind,
                    sender,
                    to,
                    body,
                    raw,
                    thread,
                    spawn_name,
                    spawn_cli,
                    spawn_task,
                    release_name,
                },
            ),
        },
    }
}

/// Reading a serialized required field recovers its value and remainder.
proof fn lemma_read_field(l: Seq<char>, v: Seq<char>, rest: Seq<char>)
    ensures
        read_field(l + esc(v) + seq!['"'] + rest, l) == Some((v, rest)),
{
    let s = l + esc(v) + seq!['"'] + rest;
    let tail = esc(v) + seq!['"'] + rest;
    assert(s =~= l + tail);
    assert(s.subrange(0, l.len() as int) =~= l);
    assert(s.skip(l.len() as int) =~= tail);
    lemma_scan_esc(v, rest);
    assert(tail.skip(esc(v).len() as int + 1) =~= rest);
}

/// Reading a serialized optional field that is present recovers it.
proof fn lemma_step_opt_present(prefix: Seq<char>, v: Seq<char>, rest: Seq<char>)
    ensures
        step_opt(prefix + esc(v) + seq!['"'] + rest, prefix) == Some((Some(v), rest)),
{
    let s = prefix + esc(v) + seq!['"'] + rest;
    let tail = esc(v) + seq!['"'] + rest;
    assert(s =~= prefix + tail);
    assert(s.subrange(0, prefix.len() as int) =~= prefix);
    assert(s.skip(prefix.len() as int) =~= tail);
    lemma_scan_esc(v, rest);
    assert(s.skip(prefix.len() as int + (esc(v).len() as int + 1)) =~= rest);
}

/// A text that differs from a key within the key's length does not open
/// with it.
proof fn lemma_tail_not_key(tail: Seq<char>, prefix: Seq<char>, i: int)
    requires
        0 <= i < prefix.len(),
        i < tail.len(),
        tail[i] != prefix[i],
    ensures
        !starts_with(tail, prefix),
{
    if starts_with(tail, prefix) {
        assert(tail.subrange(0, prefix.len() as int)[i] == tail[i]);
    }
}

/// The thread step of the optional tail.
proof fn lemma_tail_step_th(c: CmdJson)
    ensures
        step_opt(json_tail(c), ",\"thread\":\""@) == Some((c.thread, tail_sn(c))),
{
    reveal_strlit(",\"thread\":\"");
    reveal_strlit(",\"spawn_name\":\"");
    reveal_strlit(",\"spawn_cli\":\"");
    reveal_strlit(",\"spawn_task\":\"");
    reveal_strlit(",\"release_name\":\"");
    reveal_strlit("}");
    let key = ",\"thread\":\""@;
    if c.thread is Some {
        let v = c.thread->0;
        assert(json_tail(c) =~= key + esc(v) + seq!['"'] + tail_sn(c));
        lemma_step_opt_present(key, v, tail_sn(c));
    } else {
        assert(json_tail(c) =~= tail_sn(c));
        let t = tail_sn(c);
        if c.spawn_name is Some || c.spawn_cli is Some || c.spawn_task is Some
            || c.release_name is Some {
            lemma_tail_not_key(t, key, 2);
        } else {
            assert(t =~= seq!['}']);
        }
    }
}

/// The spawn-name step of the optional tail.
proof fn lemma_tail_step_sn(c: CmdJson)
    ensures
        step_opt(tail_sn(c), ",\"spawn_name\":\""@) == Some((c.spawn_name, tail_sc(c))),
{
    reveal_strlit(",\"spawn_name\":\"");
    reveal_strlit(",\"spawn_cli\":\"");
    reveal_strlit(",\"spawn_task\":\"");
    reveal_strlit(",\"release_name\":\"");
    reveal_strlit("}");
    let key = ",\"spawn_name\":\""@;
    if c.spawn_name is Some {
        let v = c.spawn_name->0;
        assert(tail_sn(c) =~= key + esc(v) + seq!['"'] + tail_sc(c));
        lemma_step_opt_present(key, v, tail_sc(c));
    } else {
        assert(tail_sn(c) =~= tail_sc(c));
        let t = tail_sc(c);
        if c.spawn_cli is Some || c.spawn_task is Some {
            lemma_tail_not_key(t, key, 8);
        } else if c.release_name is Some {
            lemma_tail_not_key(t, key, 2);
        } else {
            assert(t =~= seq!['}']);
        }
    }
}

/// The spawn-cli step of the optional tail.
proof fn lemma_tail_step_sc(c: CmdJson)
    ensures
        step_opt(tail_sc(c), ",\"spawn_cli\":\""@) == Some((c.spawn_cli, tail_st(c))),
{
    reveal_strlit(",\"spawn_cli\":\"");
    reveal_strlit(",\"spawn_task\":\"");
    reveal_strlit(",\"release_name\":\"");
    reveal_strlit("}");
    let key = ",\"spawn_cli\":\""@;
    if c.spawn_cli is Some {
        let v = c.spawn_cli->0;
        assert(tail_sc(c) =~= key + esc(v) + seq!['"'] + tail_st(c));
        lemma_step_opt_present(key, v, tail_st(c));
    } else {
        assert(tail_sc(c) =~= tail_st(c));
        let t = tail_st(c);
        if c.spawn_task is Some {
            lemma_tail_not_key(t, key, 8);
        } else if c.release_name is Some {
            lemma_tail_not_key(t, key, 2);
        } else {
            assert(t =~= seq!['}']);
        }
    }
}

/// The spawn-task step of the optional tail.
proof fn lemma_tail_step_st(c: CmdJson)
    ensures
        step_opt(tail_st(c), ",\"spawn_task\":\""@) == Some((c.spawn_task, tail_rn(c))),
{
    reveal_strlit(",\"spawn_task\":\"");
    reveal_strlit(",\"release_name\":\"");
    reveal_strlit("}");
    let key = ",\"spawn_task\":\""@;
    if c.spawn_task is Some {
        let v = c.spawn_task->0;
        assert(tail_st(c) =~= key + esc(v) + seq!['"'] + tail_rn(c));
        lemma_step_opt_present(key, v, tail_rn(c));
    } else {
        assert(tail_st(c) =~= tail_rn(c));
        let t = tail_rn(c);
        if c.release_name is Some {
            lemma_tail_not_key(t, key, 2);
        } else {
            assert(t =~= seq!['}']);
        }
    }
}

/// The release-name step of the optional tail.
proof fn lemma_tail_step_rn(c: CmdJson)
    ensures
        step_opt(tail_rn(c), ",\"release_name\":\""@) == Some((c.release_name, seq!['}'])),
{
    reveal_strlit(",\"release_name\":\"");
    reveal_strlit("}");
    let key = ",\"release_name\":\""@;
    if c.release_name is Some {
        let v = c.release_name->0;
        assert(tail_rn(c) =~= key + esc(v) + seq!['"'] + seq!['}']);
        lemma_step_opt_present(key, v, seq!['}']);
    } else {
        assert(tail_rn(c) =~= seq!['}']);
    }
}

/// Parsing the serialized optional tail recovers the optional fields.
proof fn lemma_parse_tail(c: CmdJson)
    ensures
        parse_tail(json_tail(c)) == Some(
            (c.thread, c.spawn_name, c.spawn_cli, c.spawn_task, c.release_name),
        ),
{
    lemma_tail_step_th(c);
    lemma_tail_step_sn(c);
    lemma_tail_step_sc(c);
    lemma_tail_step_st(c);
    lemma_tail_step_rn(c);
}

/// Parsing the serialized head recovers the required fields.
#[verifier::rlimit(100)]
proof fn lemma_parse_head(c: CmdJson)
    ensures
        parse_head(json_of_cmd(c)) == Some(
            (c.kind, c.sender, c.to, c.body, c.raw, json_tail(c)),
        ),
{
    let l1 = "{\"type\":\"relay_command\",\"kind\":\""@;
    let l2 = ",\"from\":\""@;
    let l3 = ",\"to\":\""@;
    let l4 = ",\"body\":\""@;
    let l5 = ",\"raw\":\""@;
    let r5 = l5 + esc(c.raw) + seq!['"'] + json_tail(c);
    let r4 = l4 + esc(c.body) + seq!['"'] + r5;
    let r3 = l3 + esc(c.to) + seq!['"'] + r4;
    let r2 = l2 + esc(c.sender) + seq!['"'] + r3;
    assert(json_of_cmd(c) =~= l1 + esc(c.kind) + seq!['"'] + r2);
    lemma_read_field(l1, c.kind, r2);
    assert(read_field(json_of_cmd(c), l1) == Some((c.kind, r2)));
    lemma_read_field(l2, c.sender, r3);
    assert(read_field(r2, l2) == Some((c.sender, r3)));
    lemma_read_field(l3, c.to, r4);
    assert(read_field(r3, l3) == Some((c.to, r4)));
    lemma_read_field(l4, c.body, r5);
    assert(read_field(r4, l4) == Some((c.body, r5)));
    lemma_read_field(l5, c.raw, json_tail(c));
    assert(read_field(r5, l5) == Some((c.raw, json_tail(c))));
}

/// Parsing the serialization of a command's fields gives the fields back:
/// the JSON line loses nothing.
pub proof fn lemma_cmd_json_round_trip(c: CmdJson)
    ensures
        parse_cmd_json(json_of_cmd(c)) == Some(c),
{
    lemma_parse_head(c);
    lemma_parse_tail(c);
}

/// Appending one character extends the escape on the right.
proof fn lemma_esc_push(a: Seq<char>, c: char)
    ensures
        esc(a.push(c)) == esc(a) + esc_char(c),
    decreases a.len(),
{
    if a.len() == 0 {
        assert(a.push(c)[0] == c);
        assert(a.push(c).drop_first() =~= Seq::<char>::empty());
        assert(a.push(c).len() == 1);
        assert(esc(a.push(c).drop_first()) =~= Seq::<char>::empty());
        assert(esc(a.push(c)) =~= esc_char(c) + esc(a.push(c).drop_first()));
        assert(esc(a.push(c)) =~= esc_char(c));
        assert(esc(a) + esc_char(c) =~= esc_char(c));
    } else {
        assert(a.push(c)[0] == a[0]);
        assert(a.push(c).drop_first() =~= a.drop_first().push(c));
        lemma_esc_push(a.drop_first(), c);
        assert(esc(a.push(c)) =~= esc(a) + esc_char(c));
    }
}

/// Pushes the escape of one character.
fn push_esc_char(out: &mut Vec<char>, c: char)
    ensures
        final(out)@ == old(out)@ + esc_char(c),
{
    let ghost base = out@;
    if c == '"' {
        out.push('\\');
        out.push('"');
    } else if c == '\\' {
        out.push('\\');
        out.push('\\');
    } else if c == '\n' {
        out.push('\\');
        out.push('n');
    } else if c == '\r' {
        out.push('\\');
        out.push('r');
    } else if c == '\t' {
        out.push('\\');
        out.push('t');
    } else {
        let u = c as u32;
        if u < 0x20 {
            out.push('\\');
            out.push('u');
            out.push('0');
            out.push('0');
            let hi = (u / 16) as u8;
            let lo = (u % 16) as u8;
            let hi_c = (48u8 + hi) as char;
            let lo_c = if lo < 10 {
                (48u8 + lo) as char
            } else {
                (97u8 + (lo - 10)) as char
            };
            proof {
                assert(hi_c == hex_digit((c as u32) as int / 16));
                assert(lo_c == hex_digit((c as u32) as int % 16));
            }
            out.push(hi_c);
            out.push(lo_c);
        } else {
            out.push(c);
        }
    }
    proof {
        assert(out@ =~= base + esc_char(c));
    }
}

/// Appends the escaped form of a string.
fn push_escaped(out: &mut Vec<char>, s: &str)
    ensures
        final(out)@ == old(out)@ + esc(s@),
{
    let v = crate::text::str_to_chars(s);
    let ghost base = out@;
    let mut i: usize = 0;
    proof {
        assert(esc(v@.subrange(0, 0)) =~= Seq::<char>::empty());
        assert(out@ =~= base + esc(v@.subrange(0, 0)));
    }
    while i < v.len()
        invariant
            0 <= i <= v@.len(),
            v@ == s@,
            out@ == base + esc(v@.subrange(0, i as int)),
        decreases v@.len() - i,
    {
        push_esc_char(out, v[i]);
        proof {
            assert(v@.subrange(0, i + 1) =~= v@.subrange(0, i as int).push(v@[i as int]));
            lemma_esc_push(v@.subrange(0, i as int), v@[i as int]);
        }
        i += 1;
    }
    proof {
        assert(v@.subrange(0, v@.len() as int) =~= v@);
    }
}

/// The field view of an executable command.
pub open spec fn cmd_json_view(c: ParsedRelayCommand) -> CmdJson {
    CmdJson {
        kind: c.kind@,
        sender: c.from@,
        to: c.to@,
        body: c.body@,
        raw: c.raw@,
        thread: crate::parser::opt_view(c.thread),
        spawn_name: crate::parser::opt_view(c.spawn_name),
        spawn_cli: crate::parser::opt_view(c.spawn_cli),
        spawn_task: crate::parser::opt_view(c.spawn_task),
        release_name: crate::parser::opt_view(c.release_name),
    }
}

/// Appends one optional field when present.
fn push_opt_field(out: &mut Vec<char>, key: &str, o: &Option<String>, Ghost(lit): Ghost<Seq<char>>)
    requires
        key@ == lit,
    ensures
        final(out)@ == old(out)@ + opt_field(
            lit,
            match *o {
                Some(ref v) => Some(v@),
                None => None,
            },
        ),
{
    let ghost base = out@;
    match o {
        Some(v) => {
            crate::text::push_str_chars(out, key);
            push_escaped(out, v.as_str());
            out.push('"');
            proof {
                assert(out@ =~= base + (lit + esc(v@) + seq!['"']));
            }
        },
        None => {
            proof {
                assert(out@ =~= base + Seq::<char>::empty());
            }
        },
    }
}

/// Serializes a command as its JSON line.
#[verifier::rlimit(100)]
pub fn command_to_json(c: &ParsedRelayCommand) -> (r: String)
    ensures
        r@ == json_of_cmd(cmd_json_view(*c)),
{
    let ghost cv = cmd_json_view(*c);
    let mut out: Vec<char> = Vec::new();
    crate::text::push_str_chars(&mut out, "{\"type\":\"relay_command\",\"kind\":\"");
    push_escaped(&mut out, c.kind.as_str());
    out.push('"');
    crate::text::push_str_chars(&mut out, ",\"from\":\"");
    push_escaped(&mut out, c.from.as_str());
    out.push('"');
    crate::text::push_str_chars(&mut out, ",\"to\":\"");
    push_escaped(&mut out, c.to.as_str());
    out.push('"');
    crate::text::push_str_chars(&mut out, ",\"body\":\"");
    push_escaped(&mut out, c.body.as_str());
    out.push('"');
    crate::text::push_str_chars(&mut out, ",\"raw\":\"");
    push_escaped(&mut out, c.raw.as_str());
    out.push('"');
    let ghost head = out@;
    push_opt_field(&mut out, ",\"thread\":\"", &c.thread, Ghost(",\"thread\":\""@));
    push_opt_field(&mut out, ",\"spawn_name\":\"", &c.spawn_name, Ghost(",\"spawn_name\":\""@));
    push_opt_field(&mut out, ",\"spawn_cli\":\"", &c.spawn_cli, Ghost(",\"spawn_cli\":\""@));
    push_opt_field(&mut out, ",\"spawn_task\":\"", &c.spawn_task, Ghost(",\"spawn_task\":\""@));
    push_opt_field(
        &mut out,
        ",\"release_name\":\"",
        &c.release_name,
        Ghost(",\"release_name\":\""@),
    );
    out.push('}');
    proof {
        assert(out@ =~= head + json_tail(cv));
        assert(out@ =~= json_of_cmd(cv));
    }
    chars_to_string(&out)
}

/// Hex digit value, executable.
fn hex_val_exec(c: char) -> (r: Option<u8>)
    ensures
        match r {
            Some(v) => hex_val(c) == v,
            None => hex_val(c) < 0,
        },
{
    let u = c as u32;
    if '0' <= c && c <= '9' {
        Some((u - 48) as u8)
    } else if 'a' <= c && c <= 'f' {
        Some((u - 97 + 10) as u8)
    } else {
        None
    }
}

/// Reads a JSON string body from `pos`, returning the decoded content and
/// the position after the closing quote.
fn scan_string_exec(v: &Vec<char>, pos: usize) -> (r: Option<(Vec<char>, usize)>)
    requires
        pos <= v@.len(),
    ensures
        match scan_str(v@.skip(pos as int)) {
            None => r is None,
            Some((content, e)) => r matches Some((out, p)) && out@ == content && p == pos + e
                && pos <= p <= v@.len(),
        },
{
    let mut out: Vec<char> = Vec::new();
    let mut i: usize = pos;
    let n_total = v.len();
    loop
        invariant
            pos <= i <= v@.len(),
            v@.len() <= usize::MAX,
            match scan_str(v@.skip(i as int)) {
                None => scan_str(v@.skip(pos as int)) is None,
                Some((t, e)) => scan_str(v@.skip(pos as int)) matches Some((t0, e0)) && t0 == out@
                    + t && e0 == e + i - pos,
            },
        decreases v@.len() - i,
    {
        let ghost suf = v@.skip(i as int);
        if i >= v.len() {
            proof {
                assert(suf.len() == 0);
            }
            return None;
        }
        proof {
            assert(suf[0] == v@[i as int]);
        }
        let c = v[i];
        if c == '"' {
            proof {
                assert(scan_str(suf) == Some((Seq::<char>::empty(), 1int)));
                assert(out@ + Seq::<char>::empty() =~= out@);
            }
            return Some((out, i + 1));
        } else if c == '\\' {
            if i + 1 >= v.len() {
                proof {
                    assert(suf.len() < 2);
                }
                return None;
            }
            proof {
                assert(suf[1] == v@[i + 1]);
                assert(suf.skip(2) =~= v@.skip(i + 2));
            }
            let n = v[i + 1];
            let decoded: char;
            let used: usize;
            if n == '"' || n == '\\' {
                decoded = n;
                used = 2;
            } else if n == 'n' {
                decoded = '\n';
                used = 2;
            } else if n == 'r' {
                decoded = '\r';
                used = 2;
            } else if n == 't' {
                decoded = '\t';
                used = 2;
            } else if n == 'u' {
                if v.len() - i <= 5 {
                    proof {
                        assert(suf.len() < 6);
                    }
                    return None;
                }
                proof {
                    assert(suf[2] == v@[i + 2] && suf[3] == v@[i + 3] && suf[4] == v@[i + 4]
                        && suf[5] == v@[i + 5]);
                    assert(suf.skip(6) =~= v@.skip(i + 6));
                }
                if v[i + 2] != '0' || v[i + 3] != '0' {
                    return None;
                }
                let h1 = match hex_val_exec(v[i + 4]) {
                    Some(h) => h,
                    None => {
                        return None;
                    },
                };
                let h2 = match hex_val_exec(v[i + 5]) {
                    Some(h) => h,
                    None => {
                        return None;
                    },
                };
                let value: u32 = (h1 as u32) * 16 + (h2 as u32);
                if value >= 0x20 {
                    return None;
                }
                decoded = (value as u8) as char;
                used = 6;
                proof {
                    assert(decoded as u32 == value);
                }
            } else {
                return None;
            }
            let ghost prev = out@;
            out.push(decoded);
            proof {
                assert(scan_str(suf) == scan_cons(decoded, scan_str(v@.skip(i + used)), used as int));
                match scan_str(v@.skip(i + used)) {
                    Some((t2, e2)) => {
                        assert(scan_str(suf) == Some((seq![decoded] + t2, e2 + used)));
                        lemma_push_concat(prev, decoded, t2);
                    },
                    None => {},
                }
            }
            i = i + used;
        } else {
            proof {
                assert(suf.drop_first() =~= v@.skip(i + 1));
            }
            let ghost prev = out@;
            out.push(c);
            proof {
                assert(scan_str(suf) == scan_cons(c, scan_str(v@.skip(i + 1)), 1int));
                match scan_str(v@.skip(i + 1)) {
                    Some((t2, e2)) => {
                        assert(scan_str(suf) == Some((seq![c] + t2, e2 + 1)));
                        lemma_push_concat(prev, c, t2);
                    },
                    None => {},
                }
            }
            i = i + 1;
        }
    }
}

/// Concatenation associates around a pushed character.
proof fn lemma_push_concat(prev: Seq<char>, c: char, t: Seq<char>)
    ensures
        prev + (seq![c] + t) == prev.push(c) + t,
{
    assert(prev + (seq![c] + t) =~= prev.push(c) + t);
}

/// Consumes a literal at `pos`.
fn eat_lit(v: &Vec<char>, pos: usize, lit: &Vec<char>) -> (r: Option<usize>)
    requires
        pos <= v@.len(),
    ensures
        match eat(v@.skip(pos as int), lit@) {
            Some(rest) => r matches Some(p) && pos <= p <= v@.len() && v@.skip(p as int) == rest,
            None => r is None,
        },
{
    let n = v.len();
    let hit = crate::text::matches_at(v, lit, pos);
    proof {
        let suf = v@.skip(pos as int);
        if occurs_at(v@, lit@, pos as int) {
            assert(suf.subrange(0, lit@.len() as int) =~= v@.subrange(
                pos as int,
                pos + lit@.len(),
            ));
            assert(starts_with(suf, lit@));
            assert(suf.skip(lit@.len() as int) =~= v@.skip(pos + lit@.len()));
        } else {
            if starts_with(suf, lit@) {
                assert(suf.subrange(0, lit@.len() as int) =~= v@.subrange(
                    pos as int,
                    pos + lit@.len(),
                ));
                assert(occurs_at(v@, lit@, pos as int));
            }
        }
    }
    if hit {
        Some(pos + lit.len())
    } else {
        None
    }
}

/// Reads one optional field at `pos`.
fn step_opt_exec(v: &Vec<char>, pos: usize, lit: &Vec<char>) -> (r: Option<
    (Option<Vec<char>>, usize),
>)
    requires
        pos <= v@.len(),
    ensures
        match step_opt(v@.skip(pos as int), lit@) {
            None => r is None,
            Some((o, rest)) => r matches Some((vo, p)) && (match vo {
                Some(ref w) => o matches Some(os) && w@ == os,
                None => o is None,
            }) && pos <= p <= v@.len() && v@.skip(p as int) == rest,
        },
{
    let n = v.len();
    let hit = crate::text::matches_at(v, lit, pos);
    proof {
        let suf = v@.skip(pos as int);
        if occurs_at(v@, lit@, pos as int) {
            assert(suf.subrange(0, lit@.len() as int) =~= v@.subrange(
                pos as int,
                pos + lit@.len(),
            ));
            assert(starts_with(suf, lit@));
            assert(suf.skip(lit@.len() as int) =~= v@.skip(pos + lit@.len()));
        } else {
            if starts_with(suf, lit@) {
                assert(suf.subrange(0, lit@.len() as int) =~= v@.subrange(
                    pos as int,
                    pos + lit@.len(),
                ));
                assert(occurs_at(v@, lit@, pos as int));
            }
        }
    }
    if hit {
        let p1 = pos + lit.len();
        match scan_string_exec(v, p1) {
            Some((content, p2)) => {
                proof {
                    let suf = v@.skip(pos as int);
                    assert(suf.skip(lit@.len() as int) =~= v@.skip(p1 as int));
                    match scan_str(v@.skip(p1 as int)) {
                        Some((t, e)) => {
                            assert(suf.skip(lit@.len() + e) =~= v@.skip(p1 + e));
                        },
                        None => {},
                    }
                }
                Some((Some(content), p2))
            },
            None => {
                proof {
                    let suf = v@.skip(pos as int);
                    assert(suf.skip(lit@.len() as int) =~= v@.skip(p1 as int));
                }
                None
            },
        }
    } else {
        Some((None, pos))
    }
}

/// Converts optional decoded characters to an optional string.
fn opt_vec_to_string(o: Option<Vec<char>>) -> (r: Option<String>)
    ensures
        match o {
            Some(ref w) => r matches Some(s) && s@ == w@,
            None => r is None,
        },
{
    match o {
        Some(w) => Some(chars_to_string(&w)),
        None => None,
    }
}

/// Parses the five required fields of a command line.
#[verifier::rlimit(100)]
fn parse_head_exec(v: &Vec<char>) -> (r: Option<
    (Vec<char>, Vec<char>, Vec<char>, Vec<char>, Vec<char>, usize),
>)
    ensures
        match parse_head(v@) {
            None => r is None,
            Some((k, f, t, b, rw, rest)) => r matches Some((ko, fo, to, bo, ro, p)) && ko@ == k
                && fo@ == f && to@ == t && bo@ == b && ro@ == rw && p <= v@.len() && v@.skip(
                p as int,
            ) == rest,
        },
{
    proof {
        assert(v@.skip(0) =~= v@);
    }
    let l1 = str_to_chars("{\"type\":\"relay_command\",\"kind\":\"");
    let p0 = match eat_lit(v, 0, &l1) {
        Some(p) => p,
        None => {
            return None;
        },
    };
    let (kind, p1) = match scan_string_exec(v, p0) {
        Some(x) => x,
        None => {
            return None;
        },
    };
    proof {
        let rest = v@.skip(p0 as int);
        match scan_str(rest) {
            Some((t, e)) => {
                assert(rest.skip(e) =~= v@.skip(p1 as int));
            },
            None => {},
        }
    }
    let l2 = str_to_chars(",\"from\":\"");
    let p2 = match eat_lit(v, p1, &l2) {
        Some(p) => p,
        None => {
            return None;
        },
    };
    let (sender, p3) = match scan_string_exec(v, p2) {
        Some(x) => x,
        None => {
            return None;
        },
    };
    proof {
        let rest = v@.skip(p2 as int);
        match scan_str(rest) {
            Some((t, e)) => {
                assert(rest.skip(e) =~= v@.skip(p3 as int));
            },
            None => {},
        }
    }
    let l3 = str_to_chars(",\"to\":\"");
    let p4 = match eat_lit(v, p3, &l3) {
        Some(p) => p,
        None => {
            return None;
        },
    };
    let (to, p5) = match scan_string_exec(v, p4) {
        Some(x) => x,
        None => {
            return None;
        },
    };
    proof {
        let rest = v@.skip(p4 as int);
        match scan_str(rest) {
            Some((t, e)) => {
                assert(rest.skip(e) =~= v@.skip(p5 as int));
            },
            None => {},
        }
    }
    let l4 = str_to_chars(",\"body\":\"");
    let p6 = match eat_lit(v, p5, &l4) {
        Some(p) => p,
        None => {
            return None;
        },
    };
    let (body, p7) = match scan_string_exec(v, p6) {
        Some(x) => x,
        None => {
            return None;
        },
    };
    proof {
        let rest = v@.skip(p6 as int);
        match scan_str(rest) {
            Some((t, e)) => {
                assert(rest.skip(e) =~= v@.skip(p7 as int));
            },
            None => {},
        }
    }
    let l5 = str_to_chars(",\"raw\":\"");
    let p8 = match eat_lit(v, p7, &l5) {
        Some(p) => p,
        None => {
            return None;
        },
    };
    let (raw, p9) = match scan_string_exec(v, p8) {
        Some(x) => x,
        None => {
            return None;
        },
    };
    proof {
        let rest = v@.skip(p8 as int);
        match scan_str(rest) {
            Some((t, e)) => {
                assert(rest.skip(e) =~= v@.skip(p9 as int));
            },
            None => {},
        }
    }
    Some((kind, sender, to, body, raw, p9))
}

/// Parses the optional tail and the closing brace.
#[verifier::rlimit(100)]
fn parse_tail_exec(v: &Vec<char>, pos: usize) -> (r: Option<
    (
        Option<Vec<char>>,
        Option<Vec<char>>,
        Option<Vec<char>>,
        Option<Vec<char>>,
        Option<Vec<char>>,
    ),
>)
    requires
        pos <= v@.len(),
    ensures
        match parse_tail(v@.skip(pos as int)) {
            None => r is None,
            Some((th, sn, sc, st, rn)) => r matches Some((tho, sno, sco, sto, rno))
                && opt_matches(tho, th) && opt_matches(sno, sn) && opt_matches(sco, sc)
                && opt_matches(sto, st) && opt_matches(rno, rn),
        },
{
    let k_th = str_to_chars(",\"thread\":\"");
    let (thread, p10) = match step_opt_exec(v, pos, &k_th) {
        Some(x) => x,
        None => {
            return None;
        },
    };
    let k_sn = str_to_chars(",\"spawn_name\":\"");
    let (spawn_name, p11) = match step_opt_exec(v, p10, &k_sn) {
        Some(x) => x,
        None => {
            return None;
        },
    };
    let k_sc = str_to_chars(",\"spawn_cli\":\"");
    let (spawn_cli, p12) = match step_opt_exec(v, p11, &k_sc) {
        Some(x) => x,
        None => {
            return None;
        },
    };
    let k_st = str_to_chars(",\"spawn_task\":\"");
    let (spawn_task, p13) = match step_opt_exec(v, p12, &k_st) {
        Some(x) => x,
        None => {
            return None;
        },
    };
    let k_rn = str_to_chars(",\"release_name\":\"");
    let (release_name, p14) = match step_opt_exec(v, p13, &k_rn) {
        Some(x) => x,
        None => {
            return None;
        },
    };
    let n = v.len();
    let closed = p14 < n && n - p14 == 1 && v[p14] == '}';
    proof {
        let rest = v@.skip(p14 as int);
        if closed {
            assert(rest =~= seq!['}']);
        } else {
            if rest =~= seq!['}'] {
                assert(rest.len() == 1);
                assert(rest[0] == v@[p14 as int]);
            }
        }
    }
    if !closed {
        return None;
    }
    Some((thread, spawn_name, spawn_cli, spawn_task, release_name))
}

/// The decoded option realizes the parsed option.
pub open spec fn opt_matches(o: Option<Vec<char>>, s: Option<Seq<char>>) -> bool {
    match o {
        Some(w) => s matches Some(x) && w@ == x,
        None => s is None,
    }
}

/// Parses a command's JSON line, the inverse of `command_to_json` on its
/// own output.
pub fn command_from_json(s: &str) -> (r: Option<ParsedRelayCommand>)
    ensures
        match parse_cmd_json(s@) {
            None => r is None,
            Some(f) => r matches Some(c) && cmd_json_view(c) == f && c.cmd_type@
                == "relay_command"@ && c.sync is None,
        },
{
    let v = str_to_chars(s);
    let (kind, sender, to, body, raw, p9) = match parse_head_exec(&v) {
        Some(x) => x,
        None => {
            return None;
        },
    };
    let (thread, spawn_name, spawn_cli, spawn_task, release_name) = match parse_tail_exec(
        &v,
        p9,
    ) {
        Some(x) => x,
        None => {
            return None;
        },
    };
    let cmd = ParsedRelayCommand {
        cmd_type: "relay_command".to_owned(),
        kind: chars_to_string(&kind),
        from: chars_to_string(&sender),
        to: chars_to_string(&to),
        body: chars_to_string(&body),
        raw: chars_to_string(&raw),
        thread: opt_vec_to_string(thread),
        sync: None,
        spawn_name: opt_vec_to_string(spawn_name),
        spawn_cli: opt_vec_to_string(spawn_cli),
        spawn_task: opt_vec_to_string(spawn_task),
        release_name: opt_vec_to_string(release_name),
    };
    Some(cmd)
}

/// A serialized command parses back to the same structure/// A serialized command parses back to the same structure: nothing of a
/// command is lost on its way through the JSON line.
pub proof fn lemma_command_json_faithful(c: ParsedRelayCommand)
    ensures
        parse_cmd_json(json_of_cmd(cmd_json_view(c))) == Some(cmd_json_view(c)),
{
    lemma_cmd_json_round_trip(cmd_json_view(c));
}

/// A nibble survives the hex digit round trip.
pub proof fn lemma_hex_round_trip(v: int)
    requires
        0 <= v < 16,
    ensures
        hex_val(hex_digit(v)) == v,
{
    if v < 10 {
        assert(hex_digit(v) == ((('0' as u32) + v) as char));
        assert(('0' as u32) + v <= 0x39);
        assert((((('0' as u32) + v) as char) as u32) == ('0' as u32) + v);
    } else {
        assert(hex_digit(v) == ((('a' as u32) + (v - 10)) as char));
        assert(('a' as u32) + (v - 10) <= 0x66);
        assert((((('a' as u32) + (v - 10)) as char) as u32) == ('a' as u32) + (v - 10));
    }
}

} // verus!
