//! Injector state: idle detection with auto-suggestion suppression, the
//! bounded recent-output buffer, and the per-attempt decision between
//! delivery, retry and failure.

use vstd::prelude::*;
use vstd::utf8::encode_utf8;

use crate::parser::ParseResult;
use crate::protocol::{Config, InjectStatus, QueuedMessage};
use crate::queue::sat_sub;
use crate::text::{
    contains_chars, contains_seq, matches_at, split_lines, split_lines_spec, starts_with,
    str_to_chars, trim_chars, trim_spec,
};

verus! {

/// `post` is the suffix of `appended` from `cut` on, and one character
/// earlier would already break the recent-output byte bound.
pub open spec fn trimmed_suffix_at(post: Seq<char>, appended: Seq<char>, cut: int) -> bool {
    &&& 0 <= cut <= appended.len()
    &&& post == appended.subrange(cut, appended.len() as int)
    &&& (cut == 0 || encode_utf8(appended.subrange(cut - 1, appended.len() as int)).len()
        > RECENT_OUTPUT_MAX_BYTES)
}

/// A line that a relay echo may contain: blank, or opening with the relay
/// prefix once trimmed.
pub open spec fn relay_line_ok(l: Seq<char>) -> bool {
    trim_spec(l).len() == 0 || starts_with(trim_spec(l), "Relay message from "@)
}

/// The recent-output buffer is capped at this many bytes of UTF-8.
pub const RECENT_OUTPUT_MAX_BYTES: usize = 10000;

/// Bytes of the UTF-8 encoding of one character.
pub open spec fn char_bytes(c: char) -> int {
    if (c as u32) < 0x80 {
        1
    } else if (c as u32) < 0x800 {
        2
    } else if (c as u32) < 0x10000 {
        3
    } else {
        4
    }
}

/// Bytes of the UTF-8 encoding of a character sequence.
pub open spec fn utf8_len(s: Seq<char>) -> int
    decreases s.len(),
{
    if s.len() == 0 {
        0
    } else {
        char_bytes(s[0]) + utf8_len(s.drop_first())
    }
}

/// `utf8_len` counts exactly the bytes of the UTF-8 encoding.
pub proof fn lemma_utf8_len_is_encoding_len(s: Seq<char>)
    ensures
        utf8_len(s) == encode_utf8(s).len(),
    decreases s.len(),
{
    if s.len() > 0 {
        let c = s[0];
        vstd::utf8::char_is_scalar(c);
        assert(vstd::utf8::encode_scalar(c as u32).len() == char_bytes(c));
        lemma_utf8_len_is_encoding_len(s.drop_first());
    }
}

/// Every character takes at least one byte.
pub proof fn lemma_utf8_len_lower(s: Seq<char>)
    ensures
        utf8_len(s) >= s.len(),
        s.len() == 0 ==> utf8_len(s) == 0,
    decreases s.len(),
{
    if s.len() > 0 {
        lemma_utf8_len_lower(s.drop_first());
    }
}

/// The byte count of a suffix, one step at a time.
pub proof fn lemma_utf8_len_suffix(s: Seq<char>, k: int)
    requires
        0 <= k < s.len(),
    ensures
        utf8_len(s.subrange(k, s.len() as int)) == char_bytes(s[k]) + utf8_len(
            s.subrange(k + 1, s.len() as int),
        ),
{
    let suf = s.subrange(k, s.len() as int);
    assert(suf.drop_first() =~= s.subrange(k + 1, s.len() as int));
}

/// Executable UTF-8 width of one character.
pub fn char_len_utf8(c: char) -> (r: usize)
    ensures
        r == char_bytes(c),
{
    let u = c as u32;
    if u < 0x80 {
        1
    } else if u < 0x800 {
        2
    } else if u < 0x10000 {
        3
    } else {
        4
    }
}

/// Is this output only echoes of the supervisor's own injections: every
/// line blank or opening with the relay prefix?
pub open spec fn is_relay_echo_spec(s: Seq<char>) -> bool {
    forall|i: int|
        0 <= i < split_lines_spec(s).len() ==> relay_line_ok(#[trigger] split_lines_spec(s)[i])
}

/// Does the output show ghost-text autocompletion: the reverse-video
/// cursor followed by dim ghost text, or the send hint?
pub open spec fn is_auto_suggestion_spec(s: Seq<char>) -> bool {
    (contains_seq(s, "\u{1b}[7m"@) && contains_seq(s, "\u{1b}[27m\u{1b}[2m"@)) || contains_seq(
        s,
        "\u{21b5} send"@,
    )
}

/// Classifies output as echo of the supervisor's own injections.
pub fn is_relay_echo(output: &str) -> (r: bool)
    ensures
        r == is_relay_echo_spec(output@),
{
    let v = str_to_chars(output);
    let lines = split_lines(&v);
    let prefix = str_to_chars("Relay message from ");
    let mut i: usize = 0;
    while i < lines.len()
        invariant
            0 <= i <= lines@.len(),
            lines.deep_view() == split_lines_spec(output@),
            prefix@ == "Relay message from "@,
            forall|j: int| 0 <= j < i ==> relay_line_ok(#[trigger] lines.deep_view()[j]),
        decreases lines@.len() - i,
    {
        let line = &lines[i];
        proof {
            assert(line@.subrange(0, line@.len() as int) =~= line@);
        }
        let (lo, hi) = trim_chars(line, 0, line.len());
        let ghost t = trim_spec(line@);
        if lo < hi {
            let trimmed = crate::text::sub_chars(line, lo, hi);
            if !matches_at(&trimmed, &prefix, 0) {
                assert(!relay_line_ok(lines.deep_view()[i as int])) by {
                    assert(lines.deep_view()[i as int] == line.deep_view());
                    assert(line.deep_view() =~= line@);
                    assert(t.len() > 0);
                }
                return false;
            }
            assert(relay_line_ok(lines.deep_view()[i as int])) by {
                assert(lines.deep_view()[i as int] == line.deep_view());
                assert(line.deep_view() =~= line@);
                assert(starts_with(t, "Relay message from "@));
            }
        } else {
            assert(relay_line_ok(lines.deep_view()[i as int])) by {
                assert(lines.deep_view()[i as int] == line.deep_view());
                assert(line.deep_view() =~= line@);
                assert(t.len() == 0);
            }
        }
        i += 1;
    }
    true
}

/// Detects auto-suggestion ghost text in raw output.
pub fn is_auto_suggestion(output: &str) -> (r: bool)
    ensures
        r == is_auto_suggestion_spec(output@),
{
    let v = str_to_chars(output);
    let cursor = str_to_chars("\u{1b}[7m");
    let dim = str_to_chars("\u{1b}[27m\u{1b}[2m");
    let hint = str_to_chars("\u{21b5} send");
    (contains_chars(&v, &cursor) && contains_chars(&v, &dim)) || contains_chars(&v, &hint)
}

/// Injector state: idle flags, output clocks and the bounded recent-output
/// buffer.
pub struct Injector {
    /// Whether the agent currently looks idle.
    pub is_idle: bool,
    /// Wall-clock milliseconds of the last real output.
    pub last_output_ms: u64,
    /// Wall-clock milliseconds of the last injection; zero before the first.
    pub last_injection_ms: u64,
    /// Recent output, bounded to `RECENT_OUTPUT_MAX_BYTES` of UTF-8.
    pub recent_output: Vec<char>,
    /// Whether ghost-text autocompletion is on screen, which blocks
    /// injection.
    pub auto_suggestion_visible: bool,
    /// Supervisor configuration.
    pub config: Config,
}

impl Injector {
    /// The recent-output buffer stays within its byte bound.
    pub open spec fn wf(self) -> bool {
        encode_utf8(self.recent_output@).len() <= RECENT_OUTPUT_MAX_BYTES
    }

    /// Whether injection may proceed at `now_ms`: never while an
    /// auto-suggestion is visible; otherwise on the explicit idle flag or
    /// on enough silence.
    pub open spec fn check_idle_spec(self, now_ms: u64) -> bool {
        !self.auto_suggestion_visible && (self.is_idle || sat_sub(now_ms, self.last_output_ms)
            >= self.config.idle_timeout_ms)
    }

    /// A fresh injector: not idle, no suggestion, empty buffer, the output
    /// clock starting at the current time.
    pub fn new(config: Config) -> (r: Self)
        ensures
            !r.is_idle,
            r.last_injection_ms == 0,
            r.recent_output@.len() == 0,
            !r.auto_suggestion_visible,
            r.config == config,
            r.wf(),
    {
        let last_output_ms = crate::clock::current_timestamp_ms();
        let r = Self {
            is_idle: false,
            last_output_ms,
            last_injection_ms: 0,
            recent_output: Vec::new(),
            auto_suggestion_visible: false,
            config,
        };
        proof {
            lemma_utf8_len_lower(r.recent_output@);
            lemma_utf8_len_is_encoding_len(r.recent_output@);
        }
        r
    }

    /// Latches the idle flag when the parser saw a prompt or a ready
    /// signal.
    pub fn update_from_parse(&mut self, result: &ParseResult)
        ensures
            final(self).is_idle == (old(self).is_idle || result.is_idle || result.ready_signal),
            final(self).last_output_ms == old(self).last_output_ms,
            final(self).last_injection_ms == old(self).last_injection_ms,
            final(self).recent_output == old(self).recent_output,
            final(self).auto_suggestion_visible == old(self).auto_suggestion_visible,
            final(self).config == old(self).config,
    {
        if result.is_idle || result.ready_signal {
            self.is_idle = true;
        }
    }

    /// Whether injection may proceed at `now_ms`; always false while an
    /// auto-suggestion is visible.
    pub fn check_idle(&self, now_ms: u64) -> (r: bool)
        ensures
            r == self.check_idle_spec(now_ms),
    {
        if self.auto_suggestion_visible {
            return false;
        }
        if self.is_idle {
            return true;
        }
        now_ms.saturating_sub(self.last_output_ms) >= self.config.idle_timeout_ms
    }

    /// Milliseconds of silence since the last output.
    pub fn silence_ms(&self, now_ms: u64) -> (r: u64)
        ensures
            r == sat_sub(now_ms, self.last_output_ms),
    {
        now_ms.saturating_sub(self.last_output_ms)
    }

    /// Milliseconds since the last injection; zero when none has happened.
    pub fn ms_since_injection(&self, now_ms: u64) -> (r: u64)
        ensures
            r == if self.last_injection_ms == 0 {
                0u64
            } else {
                sat_sub(now_ms, self.last_injection_ms)
            },
    {
        if self.last_injection_ms == 0 {
            return 0;
        }
        now_ms.saturating_sub(self.last_injection_ms)
    }

    /// Whether an injection happened within the last `within_ms`
    /// milliseconds.
    pub fn had_recent_injection(&self, now_ms: u64, within_ms: u64) -> (r: bool)
        ensures
            r == ({
                let since = if self.last_injection_ms == 0 {
                    0u64
                } else {
                    sat_sub(now_ms, self.last_injection_ms)
                };
                since > 0 && since <= within_ms
            }),
    {
        let since = self.ms_since_injection(now_ms);
        since > 0 && since <= within_ms
    }

    /// Empties the recent-output buffer, done before each write so that
    /// any later verification reads only output that followed it.
    pub fn clear_recent_output(&mut self)
        ensures
            final(self).recent_output@.len() == 0,
            final(self).is_idle == old(self).is_idle,
            final(self).last_output_ms == old(self).last_output_ms,
            final(self).last_injection_ms == old(self).last_injection_ms,
            final(self).auto_suggestion_visible == old(self).auto_suggestion_visible,
            final(self).config == old(self).config,
            final(self).wf(),
    {
        self.recent_output = Vec::new();
        proof {
            lemma_utf8_len_lower(self.recent_output@);
            lemma_utf8_len_is_encoding_len(self.recent_output@);
        }
    }

    /// Marks the moment an injection was written.
    pub fn note_injection(&mut self, now_ms: u64)
        ensures
            *final(self) == (Injector { last_injection_ms: now_ms, is_idle: false, ..*old(self) }),
    {
        self.last_injection_ms = now_ms;
        self.is_idle = false;
    }

    /// Records new output. Ghost-text auto-suggestions only set the
    /// suppression flag; anything else clears it, refreshes the output
    /// clock, clears the idle flag unless the output is an echo of the
    /// supervisor's own injections, and appends to the recent-output
    /// buffer, which is trimmed to its byte bound on character boundaries.
    pub fn record_output(&mut self, output: &str, now_ms: u64)
        ensures
            is_auto_suggestion_spec(output@) ==> *final(self) == (Injector {
                auto_suggestion_visible: true,
                ..*old(self)
            }),
            !is_auto_suggestion_spec(output@) ==> {
                &&& !final(self).auto_suggestion_visible
                &&& final(self).last_output_ms == now_ms
                &&& final(self).is_idle == (old(self).is_idle && is_relay_echo_spec(output@))
                &&& final(self).last_injection_ms == old(self).last_injection_ms
                &&& final(self).config == old(self).config
                &&& encode_utf8(final(self).recent_output@).len() <= RECENT_OUTPUT_MAX_BYTES
                &&& exists|cut: int|
                    trimmed_suffix_at(
                        final(self).recent_output@,
                        old(self).recent_output@ + output@,
                        cut,
                    )
            },
            old(self).wf() ==> final(self).wf(),
    {
        if is_auto_suggestion(output) {
            self.auto_suggestion_visible = true;
            return;
        }
        self.auto_suggestion_visible = false;
        self.last_output_ms = now_ms;
        if !is_relay_echo(output) {
            self.is_idle = false;
        }
        crate::text::push_str_chars(&mut self.recent_output, output);
        let ghost appended = self.recent_output@;

        // find the largest suffix within the byte bound, walking from the
        // end
        let mut acc: usize = 0;
        let mut cut: usize = self.recent_output.len();
        let mut stop = false;
        proof {
            assert(appended.subrange(cut as int, appended.len() as int) =~= Seq::<char>::empty());
        }
        while cut > 0 && !stop
            invariant
                0 <= cut <= self.recent_output@.len(),
                self.recent_output@ == appended,
                acc == utf8_len(appended.subrange(cut as int, appended.len() as int)),
                acc <= RECENT_OUTPUT_MAX_BYTES,
                stop ==> cut > 0 && utf8_len(appended.subrange(cut - 1, appended.len() as int))
                    > RECENT_OUTPUT_MAX_BYTES,
            decreases cut + (if stop { 0int } else { 1int }),
        {
            let w = char_len_utf8(self.recent_output[cut - 1]);
            proof {
                lemma_utf8_len_suffix(appended, cut - 1);
            }
            if acc + w > RECENT_OUTPUT_MAX_BYTES {
                stop = true;
            } else {
                acc = acc + w;
                cut = cut - 1;
            }
        }
        proof {
            if cut > 0 {
                assert(stop);
                lemma_utf8_len_is_encoding_len(appended.subrange(cut - 1, appended.len() as int));
            }
        }
        if cut > 0 {
            let kept = crate::text::sub_chars(&self.recent_output, cut, self.recent_output.len());
            self.recent_output = kept;
        }
        proof {
            assert(self.recent_output@ =~= appended.subrange(cut as int, appended.len() as int));
            lemma_utf8_len_is_encoding_len(self.recent_output@);
            assert(trimmed_suffix_at(self.recent_output@, appended, cut as int));
            assert(appended == old(self).recent_output@ + output@);
        }
    }
}

/// What the event loop reported about one injection attempt.
#[derive(Debug, Clone)]
pub enum InjectOutcome {
    /// Both writes reached the PTY writer.
    WriteOk,
    /// The write went through but verification judged it not delivered.
    VerifyFailed,
    /// A write failed; the message carries the transport error.
    WriteError { message: String },
}

/// What the injector does next with a message after an attempt.
#[derive(Debug, Clone)]
pub enum InjectAction {
    /// Broadcast `Delivered` and move on.
    Deliver,
    /// Sleep for the retry delay, then re-queue the message.
    RetryAfterDelay,
    /// Broadcast `Failed` with this error and move on.
    Fail { error: String },
}

/// The decision after one injection attempt: success delivers; a
/// verification failure retries until `max_retries` is exhausted, then
/// fails; a write error fails immediately, since the transport is gone.
pub fn injection_step(msg: &QueuedMessage, outcome: InjectOutcome, max_retries: u32) -> (r:
    InjectAction)
    ensures
        outcome is WriteOk ==> r is Deliver,
        outcome is VerifyFailed && msg.retries < max_retries ==> r is RetryAfterDelay,
        outcome is VerifyFailed && msg.retries >= max_retries ==> (r
            matches InjectAction::Fail { error } && error@ == "Verification failed after retries"@),
        outcome matches InjectOutcome::WriteError { message } ==> (r
            matches InjectAction::Fail { error } && error == message),
{
    match outcome {
        InjectOutcome::WriteOk => InjectAction::Deliver,
        InjectOutcome::VerifyFailed => {
            if msg.retries < max_retries {
                InjectAction::RetryAfterDelay
            } else {
                InjectAction::Fail { error: "Verification failed after retries".to_owned() }
            }
        },
        InjectOutcome::WriteError { message } => InjectAction::Fail { error: message },
    }
}

/// Allowed successor in one message's broadcast status stream: a queued
/// message starts injecting or fails, an injecting message keeps injecting
/// across retries until it is delivered or fails, and a terminal status has
/// no successor.
pub open spec fn status_can_follow(a: InjectStatus, b: InjectStatus) -> bool {
    ||| (a == InjectStatus::Queued && (b == InjectStatus::Injecting || b == InjectStatus::Failed))
    ||| (a == InjectStatus::Injecting && (b == InjectStatus::Injecting || b
        == InjectStatus::Delivered || b == InjectStatus::Failed))
}

/// A per-message status stream: it opens with `Queued` and every step is an
/// allowed transition.
pub open spec fn valid_status_trace(tr: Seq<InjectStatus>) -> bool {
    tr.len() > 0 && tr[0] == InjectStatus::Queued && forall|i: int|
        0 <= i < tr.len() - 1 ==> status_can_follow(#[trigger] tr[i], tr[i + 1])
}

/// The stream with adjacent repeats collapsed.
pub open spec fn dedup_adjacent(tr: Seq<InjectStatus>) -> Seq<InjectStatus>
    decreases tr.len(),
{
    if tr.len() == 0 {
        tr
    } else {
        let rest = dedup_adjacent(tr.drop_last());
        if tr.len() >= 2 && tr[tr.len() - 2] == tr.last() {
            rest
        } else {
            rest.push(tr.last())
        }
    }
}

/// `a` is a prefix of `b`.
pub open spec fn seq_prefix_of(a: Seq<InjectStatus>, b: Seq<InjectStatus>) -> bool {
    a.len() <= b.len() && a == b.subrange(0, a.len() as int)
}

/// The collapsed stream takes one of five shapes, and its last entry is the
/// stream's last entry.
pub proof fn lemma_status_trace_shapes(tr: Seq<InjectStatus>)
    requires
        valid_status_trace(tr),
    ensures
        dedup_adjacent(tr).len() > 0,
        dedup_adjacent(tr).last() == tr.last(),
        dedup_adjacent(tr) =~= seq![InjectStatus::Queued] || dedup_adjacent(tr) =~= seq![
            InjectStatus::Queued,
            InjectStatus::Injecting,
        ] || dedup_adjacent(tr) =~= seq![
            InjectStatus::Queued,
            InjectStatus::Injecting,
            InjectStatus::Delivered,
        ] || dedup_adjacent(tr) =~= seq![
            InjectStatus::Queued,
            InjectStatus::Injecting,
            InjectStatus::Failed,
        ] || dedup_adjacent(tr) =~= seq![InjectStatus::Queued, InjectStatus::Failed],
    decreases tr.len(),
{
    if tr.len() == 1 {
        assert(dedup_adjacent(tr.drop_last()) =~= Seq::<InjectStatus>::empty());
        assert(dedup_adjacent(tr) =~= Seq::<InjectStatus>::empty().push(tr.last()));
        assert(dedup_adjacent(tr) =~= seq![InjectStatus::Queued]);
    } else {
        let pre = tr.drop_last();
        assert(valid_status_trace(pre)) by {
            assert forall|i: int|
                0 <= i < pre.len() - 1 implies status_can_follow(#[trigger] pre[i], pre[i + 1]) by {
                assert(pre[i] == tr[i] && pre[i + 1] == tr[i + 1]);
                assert(status_can_follow(tr[i], tr[i + 1]));
            }
        }
        lemma_status_trace_shapes(pre);
        assert(status_can_follow(tr[tr.len() - 2], tr.last()));
        if tr[tr.len() - 2] == tr.last() {
            assert(dedup_adjacent(tr) == dedup_adjacent(pre));
        } else {
            assert(dedup_adjacent(tr) == dedup_adjacent(pre).push(tr.last()));
            assert(dedup_adjacent(pre).last() == pre.last());
            assert(pre.last() == tr[tr.len() - 2]);
        }
    }
}

/// Across one accepted message's lifetime, the broadcast statuses with
/// adjacent repeats collapsed form a prefix of `Queued, Injecting,
/// Delivered`, of `Queued, Injecting, Failed`, or of `Queued, Failed`.
pub proof fn lemma_status_trace_prefix(tr: Seq<InjectStatus>)
    requires
        valid_status_trace(tr),
    ensures
        seq_prefix_of(
            dedup_adjacent(tr),
            seq![InjectStatus::Queued, InjectStatus::Injecting, InjectStatus::Delivered],
        ) || seq_prefix_of(
            dedup_adjacent(tr),
            seq![InjectStatus::Queued, InjectStatus::Injecting, InjectStatus::Failed],
        ) || seq_prefix_of(
            dedup_adjacent(tr),
            seq![InjectStatus::Queued, InjectStatus::Failed],
        ),
{
    lemma_status_trace_shapes(tr);
    let d = dedup_adjacent(tr);
    let qid = seq![InjectStatus::Queued, InjectStatus::Injecting, InjectStatus::Delivered];
    let qif = seq![InjectStatus::Queued, InjectStatus::Injecting, InjectStatus::Failed];
    let qf = seq![InjectStatus::Queued, InjectStatus::Failed];
    if d =~= seq![InjectStatus::Queued] {
        assert(d =~= qid.subrange(0, 1));
    } else if d =~= seq![InjectStatus::Queued, InjectStatus::Injecting] {
        assert(d =~= qid.subrange(0, 2));
    } else if d =~= qid {
        assert(d =~= qid.subrange(0, 3));
    } else if d =~= qif {
        assert(d =~= qif.subrange(0, 3));
    } else {
        assert(d =~= qf.subrange(0, 2));
    }
}

/// While an auto-suggestion is visible, `check_idle` is false, whatever the
/// clocks and flags say: no injection is gated open.
pub proof fn lemma_auto_suggestion_blocks_idle(inj: Injector, now_ms: u64)
    requires
        inj.auto_suggestion_visible,
    ensures
        !inj.check_idle_spec(now_ms),
{
}

} // verus!
