//! The injection queue: priority-ordered, deduplicated by message id with a
//! TTL, bounded with backpressure. Every operation is a pure state change
//! that also returns the status events to broadcast; the event loop around
//! the library owns the channel that carries them.

use vstd::prelude::*;

use crate::protocol::{InjectResponse, InjectStatus, QueueStats, QueuedMessage};

verus! {

/// Default time-to-live for seen message ids, in seconds.
pub const DEFAULT_SEEN_ID_TTL_SECS: u64 = 300;

/// Default interval between dedup sweeps, in seconds.
pub const DEFAULT_CLEANUP_INTERVAL_SECS: u64 = 60;

/// `a - b`, stopping at zero.
pub open spec fn sat_sub(a: u64, b: u64) -> u64 {
    if a >= b {
        (a - b) as u64
    } else {
        0
    }
}

/// A dedup entry first seen at `t` is still live at `now` under `ttl`.
pub open spec fn entry_fresh(now: u64, ttl: u64, t: u64) -> bool {
    sat_sub(now, t) < ttl
}

/// Some dedup entry in `s` carries the key `id`.
pub open spec fn has_key(s: Seq<(String, u64)>, id: Seq<char>) -> bool {
    exists|i: int| 0 <= i < s.len() && #[trigger] s[i].0@ == id
}

/// No two dedup entries share a key.
pub open spec fn keys_distinct(s: Seq<(String, u64)>) -> bool {
    forall|i: int, j: int| 0 <= i < j < s.len() ==> #[trigger] s[i].0@ != #[trigger] s[j].0@
}

/// No two queued messages share an id.
pub open spec fn ids_distinct(h: Seq<QueuedMessage>) -> bool {
    forall|i: int, j: int| 0 <= i < j < h.len() ==> #[trigger] h[i].id@ != #[trigger] h[j].id@
}

/// The dedup entries of `s` that are still live at `now`, in order.
pub open spec fn sweep_seen(s: Seq<(String, u64)>, now: u64, ttl: u64) -> Seq<(String, u64)>
    decreases s.len(),
{
    if s.len() == 0 {
        s
    } else {
        let rest = sweep_seen(s.drop_last(), now, ttl);
        if entry_fresh(now, ttl, s.last().1) {
            rest.push(s.last())
        } else {
            rest
        }
    }
}

/// Every swept entry is one of the original entries.
pub proof fn lemma_sweep_source(s: Seq<(String, u64)>, now: u64, ttl: u64)
    ensures
        forall|i: int|
            0 <= i < sweep_seen(s, now, ttl).len() ==> exists|j: int|
                0 <= j < s.len() && #[trigger] sweep_seen(s, now, ttl)[i] == s[j],
    decreases s.len(),
{
    if s.len() > 0 {
        lemma_sweep_source(s.drop_last(), now, ttl);
        let out = sweep_seen(s, now, ttl);
        let rest = sweep_seen(s.drop_last(), now, ttl);
        assert forall|i: int| 0 <= i < out.len() implies exists|j: int|
            0 <= j < s.len() && #[trigger] out[i] == s[j] by {
            if i < rest.len() {
                let j = choose|j: int| 0 <= j < s.drop_last().len() && rest[i] == s.drop_last()[j];
                assert(out[i] == s[j]);
            } else {
                assert(out[i] == s[s.len() - 1]);
            }
        }
    }
}

/// A live entry survives the sweep.
pub proof fn lemma_sweep_keeps_fresh(s: Seq<(String, u64)>, now: u64, ttl: u64, j: int)
    requires
        0 <= j < s.len(),
        entry_fresh(now, ttl, s[j].1),
    ensures
        exists|i: int|
            0 <= i < sweep_seen(s, now, ttl).len() && #[trigger] sweep_seen(s, now, ttl)[i]
                == s[j],
    decreases s.len(),
{
    let out = sweep_seen(s, now, ttl);
    let rest = sweep_seen(s.drop_last(), now, ttl);
    if j == s.len() - 1 {
        assert(out[out.len() - 1] == s[j]);
    } else {
        lemma_sweep_keeps_fresh(s.drop_last(), now, ttl, j);
        let i = choose|i: int| 0 <= i < rest.len() && rest[i] == s.drop_last()[j];
        assert(out[i] == s[j]);
    }
}

/// The sweep keeps the keys distinct.
pub proof fn lemma_sweep_distinct(s: Seq<(String, u64)>, now: u64, ttl: u64)
    requires
        keys_distinct(s),
    ensures
        keys_distinct(sweep_seen(s, now, ttl)),
    decreases s.len(),
{
    if s.len() > 0 {
        assert(keys_distinct(s.drop_last()));
        lemma_sweep_distinct(s.drop_last(), now, ttl);
        lemma_sweep_source(s.drop_last(), now, ttl);
        let out = sweep_seen(s, now, ttl);
        let rest = sweep_seen(s.drop_last(), now, ttl);
        if entry_fresh(now, ttl, s.last().1) {
            assert forall|i: int, j: int| 0 <= i < j < out.len() implies #[trigger] out[i].0@
                != #[trigger] out[j].0@ by {
                if j == out.len() - 1 {
                    let k = choose|k: int|
                        0 <= k < s.drop_last().len() && rest[i] == s.drop_last()[k];
                    assert(s[k].0@ != s[s.len() - 1].0@);
                } else {
                    assert(rest[i].0@ != rest[j].0@);
                }
            }
        }
    }
}

/// The dedup entries of `s` whose key is not `id`, in order.
pub open spec fn remove_key(s: Seq<(String, u64)>, id: Seq<char>) -> Seq<(String, u64)>
    decreases s.len(),
{
    if s.len() == 0 {
        s
    } else {
        let rest = remove_key(s.drop_last(), id);
        if s.last().0@ != id {
            rest.push(s.last())
        } else {
            rest
        }
    }
}

/// `a` is due no later than `b`: smaller priority first, ties broken by the
/// older queue timestamp.
pub open spec fn msg_le(a: QueuedMessage, b: QueuedMessage) -> bool {
    a.priority < b.priority || (a.priority == b.priority && a.queued_at <= b.queued_at)
}

/// The `Queued` status event for `id` at time `ts`.
pub open spec fn is_queued_event(e: InjectResponse, id: Seq<char>, ts: u64) -> bool {
    e matches InjectResponse::InjectResult { id: eid, status, timestamp, error } && eid@ == id
        && status == InjectStatus::Queued && timestamp == ts && error is None
}

/// A backpressure event with the given queue length and acceptance flag.
pub open spec fn is_backpressure_event(e: InjectResponse, qlen: int, acc: bool) -> bool {
    e matches InjectResponse::Backpressure { queue_length, accept } && queue_length == qlen
        && accept == acc
}

/// Does any dedup entry carry this key?
fn seen_has_key(seen: &Vec<(String, u64)>, id: &String) -> (r: bool)
    ensures
        r == has_key(seen@, id@),
{
    let mut i: usize = 0;
    while i < seen.len()
        invariant
            0 <= i <= seen@.len(),
            forall|j: int| 0 <= j < i ==> #[trigger] seen@[j].0@ != id@,
        decreases seen@.len() - i,
    {
        if seen[i].0 == *id {
            assert(has_key(seen@, id@));
            return true;
        }
        i += 1;
    }
    false
}

/// Position of the first least message under `msg_le`.
fn min_index(heap: &Vec<QueuedMessage>) -> (best: usize)
    requires
        heap@.len() > 0,
    ensures
        best < heap@.len(),
        forall|j: int| 0 <= j < heap@.len() ==> msg_le(heap@[best as int], #[trigger] heap@[j]),
        forall|j: int| 0 <= j < best ==> !msg_le(#[trigger] heap@[j], heap@[best as int]),
{
    let mut best: usize = 0;
    let mut k: usize = 1;
    while k < heap.len()
        invariant
            0 <= best < k <= heap@.len(),
            forall|j: int| 0 <= j < k ==> msg_le(heap@[best as int], #[trigger] heap@[j]),
            forall|j: int| 0 <= j < best ==> !msg_le(#[trigger] heap@[j], heap@[best as int]),
        decreases heap@.len() - k,
    {
        let better = heap[k].priority < heap[best].priority || (heap[k].priority
            == heap[best].priority && heap[k].queued_at < heap[best].queued_at);
        if better {
            best = k;
        }
        k += 1;
    }
    best
}

/// Priority queue of pending messages with id-based deduplication.
pub struct MessageQueue {
    /// Pending messages, an unordered bag; dequeue picks the least under
    /// `msg_le`.
    pub heap: Vec<QueuedMessage>,
    /// Dedup entries: message id and the millisecond timestamp when it was
    /// first accepted.
    pub seen: Vec<(String, u64)>,
    /// Capacity before backpressure.
    pub max_size: usize,
    /// Time-to-live of dedup entries, in milliseconds.
    pub seen_ttl_ms: u64,
    /// Interval between dedup sweeps, in milliseconds.
    pub cleanup_interval_ms: u64,
    /// When the last sweep ran.
    pub last_cleanup_ms: u64,
    /// A capacity rejection happened and the accepting backpressure signal
    /// has not been sent yet.
    pub pending_recovery: bool,
}

impl MessageQueue {
    /// No two queued messages share an id, and no two dedup entries share a
    /// key.
    pub open spec fn wf(self) -> bool {
        keys_distinct(self.seen@) && ids_distinct(self.heap@)
    }

    /// Some message with this id is queued.
    pub open spec fn in_heap(self, id: Seq<char>) -> bool {
        exists|i: int| 0 <= i < self.heap@.len() && #[trigger] self.heap@[i].id@ == id
    }

    /// A dedup entry for `id` exists and is still live at `now`.
    pub open spec fn seen_fresh_for(self, now: u64, id: Seq<char>) -> bool {
        exists|i: int|
            0 <= i < self.seen@.len() && #[trigger] self.seen@[i].0@ == id && entry_fresh(
                now,
                self.seen_ttl_ms,
                self.seen@[i].1,
            )
    }

    /// Every queued message is covered by a live dedup entry: the state in
    /// which deduplication is guaranteed.
    pub open spec fn heap_covered_fresh(self, now: u64) -> bool {
        forall|k: int|
            0 <= k < self.heap@.len() ==> self.seen_fresh_for(now, #[trigger] self.heap@[k].id@)
    }

    /// A sweep is due at `now`.
    pub open spec fn sweep_due(self, now: u64) -> bool {
        sat_sub(now, self.last_cleanup_ms) > self.cleanup_interval_ms
    }

    /// An empty queue with the given capacity and default TTL settings.
    pub fn new(max_size: usize) -> (r: Self)
        ensures
            r.heap@.len() == 0,
            r.seen@.len() == 0,
            r.max_size == max_size,
            r.seen_ttl_ms == DEFAULT_SEEN_ID_TTL_SECS * 1000,
            r.cleanup_interval_ms == DEFAULT_CLEANUP_INTERVAL_SECS * 1000,
            !r.pending_recovery,
            r.wf(),
    {
        Self::with_ttl(max_size, DEFAULT_SEEN_ID_TTL_SECS, DEFAULT_CLEANUP_INTERVAL_SECS)
    }

    /// An empty queue with the given capacity, dedup TTL and sweep interval,
    /// both in seconds.
    pub fn with_ttl(max_size: usize, seen_ttl_secs: u64, cleanup_interval_secs: u64) -> (r: Self)
        requires
            seen_ttl_secs <= 0xffff_ffff,
            cleanup_interval_secs <= 0xffff_ffff,
        ensures
            r.heap@.len() == 0,
            r.seen@.len() == 0,
            r.max_size == max_size,
            r.seen_ttl_ms == seen_ttl_secs * 1000,
            r.cleanup_interval_ms == cleanup_interval_secs * 1000,
            !r.pending_recovery,
            r.wf(),
    {
        let last_cleanup_ms = crate::clock::current_timestamp_ms();
        Self {
            heap: Vec::new(),
            seen: Vec::new(),
            max_size,
            seen_ttl_ms: seen_ttl_secs * 1000,
            cleanup_interval_ms: cleanup_interval_secs * 1000,
            last_cleanup_ms,
            pending_recovery: false,
        }
    }

    /// What `enqueue` does: an optional dedup sweep, then rejection on a
    /// duplicate id (no event), rejection at capacity (the id is not
    /// remembered; a backpressure event is raised and the recovery signal
    /// is armed for the drain back to half capacity), or acceptance with a
    /// `Queued` event.
    pub open spec fn enqueue_post(
        pre: Self,
        post: Self,
        msg: QueuedMessage,
        now: u64,
        accepted: bool,
        events: Seq<InjectResponse>,
    ) -> bool {
        let swept = if pre.sweep_due(now) {
            sweep_seen(pre.seen@, now, pre.seen_ttl_ms)
        } else {
            pre.seen@
        };
        let lc = if pre.sweep_due(now) {
            now
        } else {
            pre.last_cleanup_ms
        };
        &&& post.max_size == pre.max_size
        &&& post.seen_ttl_ms == pre.seen_ttl_ms
        &&& post.cleanup_interval_ms == pre.cleanup_interval_ms
        &&& post.last_cleanup_ms == lc
        &&& if has_key(swept, msg.id@) {
            &&& !accepted
            &&& post.heap@ == pre.heap@
            &&& post.seen@ == swept
            &&& post.pending_recovery == pre.pending_recovery
            &&& events.len() == 0
        } else if pre.heap@.len() >= pre.max_size {
            &&& !accepted
            &&& post.heap@ == pre.heap@
            &&& post.seen@ == swept
            &&& post.pending_recovery
            &&& events.len() == 1
            &&& is_backpressure_event(events[0], pre.heap@.len() as int, false)
        } else {
            &&& accepted
            &&& post.heap@ == pre.heap@.push(msg)
            &&& Self::seen_pushed(post.seen@, swept, msg.id@, now)
            &&& post.pending_recovery == pre.pending_recovery
            &&& events.len() == 1
            &&& is_queued_event(events[0], msg.id@, now)
        }
    }

    /// `post` is `base` with one entry `(id, now)` appended.
    pub open spec fn seen_pushed(
        post: Seq<(String, u64)>,
        base: Seq<(String, u64)>,
        id: Seq<char>,
        now: u64,
    ) -> bool {
        &&& post.len() == base.len() + 1
        &&& post.subrange(0, base.len() as int) == base
        &&& post.last().0@ == id
        &&& post.last().1 == now
    }

    /// Adds a message. Returns whether it was accepted, and the status
    /// events to broadcast. A duplicate id is rejected silently; a full
    /// queue rejects with a backpressure event, remembers nothing of the
    /// id, and arms the recovery signal that `dequeue` sends once the queue
    /// has drained to half capacity. Deduplication is guaranteed as long as
    /// every queued message's dedup entry is within its TTL.
    pub fn enqueue(&mut self, msg: QueuedMessage, now_ms: u64) -> (r: (bool, Vec<InjectResponse>))
        ensures
            Self::enqueue_post(*old(self), *final(self), msg, now_ms, r.0, r.1@),
            old(self).wf() && !r.0 ==> final(self).wf(),
            old(self).wf() && old(self).heap_covered_fresh(now_ms) ==> final(self).wf(),
            old(self).wf() && old(self).heap_covered_fresh(now_ms) && final(self).seen_ttl_ms > 0
                ==> final(self).heap_covered_fresh(now_ms),
    {
        proof {
            if old(self).wf() {
                lemma_sweep_distinct(self.seen@, now_ms, self.seen_ttl_ms);
                lemma_sweep_source(self.seen@, now_ms, self.seen_ttl_ms);
            }
        }
        if now_ms.saturating_sub(self.last_cleanup_ms) > self.cleanup_interval_ms {
            self.cleanup_expired_ids(now_ms);
            self.last_cleanup_ms = now_ms;
        }
        let ghost swept = self.seen@;
        let ghost pre = *old(self);

        // duplicate id?
        if seen_has_key(&self.seen, &msg.id) {
            proof {
                if pre.wf() && pre.heap_covered_fresh(now_ms) && self.seen_ttl_ms > 0 {
                    assert forall|k: int| 0 <= k < self.heap@.len() implies self.seen_fresh_for(
                        now_ms,
                        #[trigger] self.heap@[k].id@,
                    ) by {
                        let e = choose|e: int|
                            0 <= e < pre.seen@.len() && #[trigger] pre.seen@[e].0@
                                == pre.heap@[k].id@ && entry_fresh(
                                now_ms,
                                pre.seen_ttl_ms,
                                pre.seen@[e].1,
                            );
                        if pre.sweep_due(now_ms) {
                            lemma_sweep_keeps_fresh(pre.seen@, now_ms, pre.seen_ttl_ms, e);
                        }
                    }
                }
            }
            return (false, Vec::new());
        }
        assert(!has_key(swept, msg.id@));

        // capacity?
        if self.heap.len() >= self.max_size {
            let qlen = self.heap.len();
            self.pending_recovery = true;
            let mut events: Vec<InjectResponse> = Vec::new();
            events.push(InjectResponse::Backpressure { queue_length: qlen, accept: false });
            proof {
                if pre.wf() {
                    assert(self.wf());
                }
                if pre.wf() && pre.heap_covered_fresh(now_ms) && self.seen_ttl_ms > 0 {
                    assert forall|k: int| 0 <= k < self.heap@.len() implies self.seen_fresh_for(
                        now_ms,
                        #[trigger] self.heap@[k].id@,
                    ) by {
                        let e = choose|e: int|
                            0 <= e < pre.seen@.len() && #[trigger] pre.seen@[e].0@
                                == pre.heap@[k].id@ && entry_fresh(
                                now_ms,
                                pre.seen_ttl_ms,
                                pre.seen@[e].1,
                            );
                        if pre.sweep_due(now_ms) {
                            lemma_sweep_keeps_fresh(pre.seen@, now_ms, pre.seen_ttl_ms, e);
                        }
                    }
                }
            }
            return (false, events);
        }

        // accept
        let id_for_event = msg.id.clone();
        let id_for_seen = msg.id.clone();
        self.seen.push((id_for_seen, now_ms));
        self.heap.push(msg);
        let mut events: Vec<InjectResponse> = Vec::new();
        events.push(
            InjectResponse::InjectResult {
                id: id_for_event,
                status: InjectStatus::Queued,
                timestamp: now_ms,
                error: None,
            },
        );
        proof {
            assert(self.seen@.subrange(0, swept.len() as int) =~= swept);
            assert(Self::enqueue_post(pre, *self, msg, now_ms, true, events@));
            if pre.wf() && pre.heap_covered_fresh(now_ms) {
                assert forall|k: int| 0 <= k < pre.heap@.len() implies #[trigger] pre.heap@[k].id@
                    != msg.id@ by {
                    assert(pre.seen_fresh_for(now_ms, pre.heap@[k].id@));
                    let e = choose|e: int|
                        0 <= e < pre.seen@.len() && #[trigger] pre.seen@[e].0@ == pre.heap@[k].id@
                            && entry_fresh(now_ms, pre.seen_ttl_ms, pre.seen@[e].1);
                    if pre.sweep_due(now_ms) {
                        lemma_sweep_keeps_fresh(pre.seen@, now_ms, pre.seen_ttl_ms, e);
                        let w = choose|w: int|
                            0 <= w < swept.len() && #[trigger] swept[w] == pre.seen@[e];
                        assert(swept[w].0@ == pre.heap@[k].id@);
                    } else {
                        assert(swept[e].0@ == pre.heap@[k].id@);
                    }
                }
                assert(self.wf());
                if self.seen_ttl_ms > 0 {
                    assert forall|k: int| 0 <= k < self.heap@.len() implies self.seen_fresh_for(
                        now_ms,
                        #[trigger] self.heap@[k].id@,
                    ) by {
                        if k < pre.heap@.len() {
                            let e = choose|e: int|
                                0 <= e < pre.seen@.len() && #[trigger] pre.seen@[e].0@
                                    == pre.heap@[k].id@ && entry_fresh(
                                    now_ms,
                                    pre.seen_ttl_ms,
                                    pre.seen@[e].1,
                                );
                            if pre.sweep_due(now_ms) {
                                lemma_sweep_keeps_fresh(pre.seen@, now_ms, pre.seen_ttl_ms, e);
                                let w = choose|w: int|
                                    0 <= w < swept.len() && #[trigger] swept[w] == pre.seen@[e];
                                assert(self.seen@[w] == swept[w]);
                            } else {
                                assert(self.seen@[e] == swept[e]);
                            }
                        } else {
                            assert(self.seen@.last().0@ == self.heap@[k].id@);
                        }
                    }
                }
            }
        }
        (true, events)
    }

    /// Removes live-entry bookkeeping that has outlived its TTL.
    fn cleanup_expired_ids(&mut self, now_ms: u64)
        ensures
            final(self).seen@ == sweep_seen(old(self).seen@, now_ms, old(self).seen_ttl_ms),
            final(self).heap@ == old(self).heap@,
            final(self).max_size == old(self).max_size,
            final(self).seen_ttl_ms == old(self).seen_ttl_ms,
            final(self).cleanup_interval_ms == old(self).cleanup_interval_ms,
            final(self).last_cleanup_ms == old(self).last_cleanup_ms,
            final(self).pending_recovery == old(self).pending_recovery,
    {
        let ghost q0 = *self;
        let ghost s0 = self.seen@;
        let ttl = self.seen_ttl_ms;
        let mut kept: Vec<(String, u64)> = Vec::new();
        let mut i: usize = 0;
        while i < self.seen.len()
            invariant
                *self == q0,
                self.seen@ == s0,
                0 <= i <= s0.len(),
                ttl == self.seen_ttl_ms,
                kept@ == sweep_seen(s0.subrange(0, i as int), now_ms, ttl),
            decreases s0.len() - i,
        {
            proof {
                assert(s0.subrange(0, i + 1).drop_last() =~= s0.subrange(0, i as int));
            }
            if now_ms.saturating_sub(self.seen[i].1) < ttl {
                let entry_id = self.seen[i].0.clone();
                let entry_t = self.seen[i].1;
                proof {
                    assert((entry_id, entry_t) == s0[i as int]);
                }
                kept.push((entry_id, entry_t));
                proof {
                    assert(s0.subrange(0, i + 1).last() == s0[i as int]);
                    assert(kept@ =~= sweep_seen(s0.subrange(0, i + 1), now_ms, ttl));
                }
            }
            i += 1;
        }
        proof {
            assert(s0.subrange(0, s0.len() as int) =~= s0);
        }
        self.seen = kept;
    }

    /// The least message under `msg_le` was removed from position `idx`; the
    /// earliest of several equal candidates wins.
    pub open spec fn is_min_removal(
        pre_heap: Seq<QueuedMessage>,
        post_heap: Seq<QueuedMessage>,
        m: QueuedMessage,
        idx: int,
    ) -> bool {
        &&& 0 <= idx < pre_heap.len()
        &&& m == pre_heap[idx]
        &&& post_heap == pre_heap.remove(idx)
        &&& forall|k: int| 0 <= k < pre_heap.len() ==> msg_le(m, #[trigger] pre_heap[k])
        &&& forall|k: int| 0 <= k < idx ==> !msg_le(#[trigger] pre_heap[k], m)
    }

    /// The least message under `msg_le` was removed from somewhere in the
    /// heap.
    pub open spec fn min_removed(
        pre_heap: Seq<QueuedMessage>,
        post_heap: Seq<QueuedMessage>,
        m: QueuedMessage,
    ) -> bool {
        exists|idx: int| Self::is_min_removal(pre_heap, post_heap, m, idx)
    }

    /// Removes and returns the next message: smallest priority value first,
    /// ties broken by the oldest queue timestamp. When a capacity rejection
    /// is outstanding and this removal drains the queue down to half
    /// capacity, the accepting backpressure signal is returned for
    /// broadcast.
    pub fn dequeue(&mut self) -> (r: (Option<QueuedMessage>, Vec<InjectResponse>))
        ensures
            final(self).seen@ == old(self).seen@,
            final(self).max_size == old(self).max_size,
            final(self).seen_ttl_ms == old(self).seen_ttl_ms,
            final(self).cleanup_interval_ms == old(self).cleanup_interval_ms,
            final(self).last_cleanup_ms == old(self).last_cleanup_ms,
            r.0 is None ==> old(self).heap@.len() == 0 && *final(self) == *old(self) && r.1@.len()
                == 0,
            r.0 matches Some(m) ==> Self::min_removed(old(self).heap@, final(self).heap@, m),
            ({
                let fired = old(self).pending_recovery && r.0 is Some && old(self).heap@.len() - 1
                    == old(self).max_size as int / 2;
                &&& final(self).pending_recovery == (old(self).pending_recovery && !fired)
                &&& if fired {
                    r.1@.len() == 1 && is_backpressure_event(
                        r.1@[0],
                        old(self).max_size as int / 2,
                        true,
                    )
                } else {
                    r.1@.len() == 0
                }
            }),
            old(self).wf() ==> final(self).wf(),
    {
        if self.heap.len() == 0 {
            return (None, Vec::new());
        }
        let best = min_index(&self.heap);
        let m = self.heap.remove(best);
        proof {
            let ghost pre_heap = old(self).heap@;
            assert(m == pre_heap[best as int]);
            assert(self.heap@ == pre_heap.remove(best as int));
            assert(Self::is_min_removal(pre_heap, self.heap@, m, best as int));
            assert(Self::min_removed(pre_heap, self.heap@, m));
            if old(self).wf() {
                assert forall|i: int, j: int| 0 <= i < j < self.heap@.len() implies #[trigger] self
                    .heap@[i].id@ != #[trigger] self.heap@[j].id@ by {
                    assert(self.heap@[i] == if i < best as int {
                        pre_heap[i]
                    } else {
                        pre_heap[i + 1]
                    });
                    assert(self.heap@[j] == if j < best as int {
                        pre_heap[j]
                    } else {
                        pre_heap[j + 1]
                    });
                }
            }
        }
        let mut events: Vec<InjectResponse> = Vec::new();
        if self.pending_recovery && self.heap.len() == self.max_size / 2 {
            let qlen = self.heap.len();
            events.push(InjectResponse::Backpressure { queue_length: qlen, accept: true });
            self.pending_recovery = false;
        }
        (Some(m), events)
    }

    /// The next message without removing it.
    pub fn peek(&self) -> (r: Option<QueuedMessage>)
        ensures
            match r {
                None => self.heap@.len() == 0,
                Some(m) => exists|idx: int|
                    {
                        &&& 0 <= idx < self.heap@.len()
                        &&& m == self.heap@[idx]
                        &&& forall|k: int|
                            0 <= k < self.heap@.len() ==> msg_le(m, #[trigger] self.heap@[k])
                    },
            },
    {
        if self.heap.len() == 0 {
            return None;
        }
        let best = min_index(&self.heap);
        let m = self.copy_message(best);
        proof {
            let idx = best as int;
            assert(0 <= idx < self.heap@.len() && m == self.heap@[idx] && forall|k: int|
                0 <= k < self.heap@.len() ==> msg_le(m, #[trigger] self.heap@[k]));
        }
        Some(m)
    }

    /// A field-for-field copy of the queued message at `idx`.
    fn copy_message(&self, idx: usize) -> (r: QueuedMessage)
        requires
            idx < self.heap@.len(),
        ensures
            r == self.heap@[idx as int],
    {
        let m = &self.heap[idx];
        QueuedMessage {
            id: m.id.clone(),
            from: m.from.clone(),
            body: m.body.clone(),
            priority: m.priority,
            retries: m.retries,
            queued_at: m.queued_at,
        }
    }

    /// Number of queued messages.
    pub fn len(&self) -> (r: usize)
        ensures
            r == self.heap@.len(),
    {
        self.heap.len()
    }

    /// Whether the queue is empty.
    pub fn is_empty(&self) -> (r: bool)
        ensures
            r == (self.heap@.len() == 0),
    {
        self.heap.len() == 0
    }

    /// Re-queues a message for another attempt: the retry count goes up by
    /// exactly one and the queue timestamp is refreshed.
    pub fn retry(&mut self, msg: QueuedMessage, now_ms: u64)
        requires
            msg.retries < u32::MAX,
        ensures
            final(self).heap@ == old(self).heap@.push(
                QueuedMessage { retries: (msg.retries + 1) as u32, queued_at: now_ms, ..msg },
            ),
            final(self).seen@ == old(self).seen@,
            final(self).max_size == old(self).max_size,
            final(self).seen_ttl_ms == old(self).seen_ttl_ms,
            final(self).cleanup_interval_ms == old(self).cleanup_interval_ms,
            final(self).last_cleanup_ms == old(self).last_cleanup_ms,
            old(self).wf() && !old(self).in_heap(msg.id@) ==> final(self).wf(),
    {
        let updated = QueuedMessage {
            retries: msg.retries + 1,
            queued_at: now_ms,
            id: msg.id,
            from: msg.from,
            body: msg.body,
            priority: msg.priority,
        };
        self.heap.push(updated);
    }

    /// The status event to broadcast for a message reaching `status`.
    pub fn report_result(
        &self,
        id: String,
        status: InjectStatus,
        error: Option<String>,
        now_ms: u64,
    ) -> (r: InjectResponse)
        ensures
            r == (InjectResponse::InjectResult { id, status, timestamp: now_ms, error }),
    {
        InjectResponse::InjectResult { id, status, timestamp: now_ms, error }
    }

    /// Forgets the dedup entry for a delivered id, so the id may be reused.
    pub fn mark_delivered(&mut self, id: &str)
        ensures
            final(self).seen@ == remove_key(old(self).seen@, id@),
            final(self).heap@ == old(self).heap@,
            final(self).max_size == old(self).max_size,
            final(self).seen_ttl_ms == old(self).seen_ttl_ms,
            final(self).cleanup_interval_ms == old(self).cleanup_interval_ms,
            final(self).last_cleanup_ms == old(self).last_cleanup_ms,
    {
        let ghost q0 = *self;
        let ghost s0 = self.seen@;
        let id_chars = crate::text::str_to_chars(id);
        let mut kept: Vec<(String, u64)> = Vec::new();
        let mut i: usize = 0;
        while i < self.seen.len()
            invariant
                *self == q0,
                self.seen@ == s0,
                0 <= i <= s0.len(),
                id_chars@ == id@,
                kept@ == remove_key(s0.subrange(0, i as int), id@),
            decreases s0.len() - i,
        {
            proof {
                assert(s0.subrange(0, i + 1).drop_last() =~= s0.subrange(0, i as int));
            }
            let key_chars = crate::text::str_to_chars(self.seen[i].0.as_str());
            if !crate::text::chars_eq(&key_chars, &id_chars) {
                let entry_id = self.seen[i].0.clone();
                let entry_t = self.seen[i].1;
                proof {
                    assert((entry_id, entry_t) == s0[i as int]);
                }
                kept.push((entry_id, entry_t));
                proof {
                    assert(s0.subrange(0, i + 1).last() == s0[i as int]);
                    assert(kept@ =~= remove_key(s0.subrange(0, i + 1), id@));
                }
            }
            i += 1;
        }
        proof {
            assert(s0.subrange(0, s0.len() as int) =~= s0);
        }
        self.seen = kept;
    }

    /// Forgets all dedup entries.
    pub fn clear_seen(&mut self)
        ensures
            final(self).seen@.len() == 0,
            final(self).heap@ == old(self).heap@,
            final(self).max_size == old(self).max_size,
            final(self).seen_ttl_ms == old(self).seen_ttl_ms,
            final(self).cleanup_interval_ms == old(self).cleanup_interval_ms,
            final(self).last_cleanup_ms == old(self).last_cleanup_ms,
    {
        self.seen = Vec::new();
    }

    /// Queue statistics: length, capacity and dedup entry count.
    pub fn stats(&self) -> (r: QueueStats)
        ensures
            r.queue_length == self.heap@.len(),
            r.max_size == self.max_size,
            r.seen_count == self.seen@.len(),
    {
        QueueStats {
            queue_length: self.heap.len(),
            max_size: self.max_size,
            seen_count: self.seen.len(),
        }
    }
}

/// A well-formed queue holds at most one copy of any id: two queued
/// messages with the same id are the same entry.
pub proof fn lemma_at_most_one_copy(q: MessageQueue, i: int, j: int)
    requires
        q.wf(),
        0 <= i < q.heap@.len(),
        0 <= j < q.heap@.len(),
        q.heap@[i].id@ == q.heap@[j].id@,
    ensures
        i == j,
{
}

} // verus!
