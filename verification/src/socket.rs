//! Control-socket logic: turning requests into queue operations and
//! responses, and the per-connection bookkeeping that streams a message's
//! status events back to the client that injected it.

use vstd::prelude::*;

use crate::protocol::{InjectRequest, InjectResponse, InjectStatus, QueuedMessage, StatusInfo};
use crate::queue::MessageQueue;
use crate::text::{chars_to_string, str_to_chars};

verus! {

/// The error line sent when an injection is rejected:
/// `Message <id> rejected (duplicate or backpressure)`.
pub open spec fn rejection_message(id: Seq<char>) -> Seq<char> {
    "Message "@ + id + " rejected (duplicate or backpressure)"@
}

/// Builds the rejection error text for an id.
fn rejection_text(id: &str) -> (r: String)
    ensures
        r@ == rejection_message(id@),
{
    let mut out: Vec<char> = Vec::new();
    crate::text::push_str_chars(&mut out, "Message ");
    crate::text::push_str_chars(&mut out, id);
    crate::text::push_str_chars(&mut out, " rejected (duplicate or backpressure)");
    chars_to_string(&out)
}

/// What handling an `Inject` request did to the queue and what goes back
/// on the wire: on acceptance the initial `Queued` line plus the broadcast
/// events; on rejection an error line naming the id.
pub open spec fn inject_reply_post(
    pre: MessageQueue,
    post: MessageQueue,
    id: Seq<char>,
    from: Seq<char>,
    body: Seq<char>,
    priority: i32,
    now: u64,
    reply: InjectResponse,
    events: Seq<InjectResponse>,
    accepted: bool,
) -> bool {
    exists|msg: QueuedMessage|
        {
            &&& msg.id@ == id
            &&& msg.from@ == from
            &&& msg.body@ == body
            &&& msg.priority == priority
            &&& msg.retries == 0
            &&& #[trigger] MessageQueue::enqueue_post(pre, post, msg, now, accepted, events)
            &&& if accepted {
                reply matches InjectResponse::InjectResult { id: rid, status, timestamp, error }
                    && rid@ == id && status == InjectStatus::Queued && timestamp == now
                    && error is None
            } else {
                reply matches InjectResponse::Error { message } && message@ == rejection_message(
                    id,
                )
            }
        }
}

/// Handles an `Inject` request against the queue: enqueues and returns the
/// reply for this connection, the events to broadcast, and whether the
/// message was accepted.
pub fn handle_inject(
    queue: &mut MessageQueue,
    id: String,
    from: String,
    body: String,
    priority: i32,
    now_ms: u64,
) -> (r: (InjectResponse, Vec<InjectResponse>, bool))
    ensures
        inject_reply_post(
            *old(queue),
            *final(queue),
            id@,
            from@,
            body@,
            priority,
            now_ms,
            r.0,
            r.1@,
            r.2,
        ),
        old(queue).wf() && old(queue).heap_covered_fresh(now_ms) ==> final(queue).wf(),
{
    let reply_id = id.clone();
    let msg = QueuedMessage::new(id, from, body, priority);
    let ghost m = msg;
    let (accepted, events) = queue.enqueue(msg, now_ms);
    let reply = if accepted {
        InjectResponse::InjectResult {
            id: reply_id,
            status: InjectStatus::Queued,
            timestamp: now_ms,
            error: None,
        }
    } else {
        InjectResponse::Error { message: rejection_text(reply_id.as_str()) }
    };
    proof {
        assert(MessageQueue::enqueue_post(*old(queue), *queue, m, now_ms, accepted, events@));
    }
    (reply, events, accepted)
}

/// The status reply for a supervisor snapshot.
pub fn status_response(info: &StatusInfo) -> (r: InjectResponse)
    ensures
        r matches InjectResponse::Status { agent_idle, queue_length, cursor_position, last_output_ms }
            && agent_idle == info.agent_idle && queue_length == info.queue_length
            && cursor_position == info.cursor_position && last_output_ms == info.last_output_ms,
{
    InjectResponse::Status {
        agent_idle: info.agent_idle,
        queue_length: info.queue_length,
        cursor_position: info.cursor_position,
        last_output_ms: info.last_output_ms,
    }
}

/// The reply to a `SendEnter` request.
pub fn send_enter_response(id: String, success: bool, now_ms: u64) -> (r: InjectResponse)
    ensures
        r == (InjectResponse::SendEnterResult { id, success, timestamp: now_ms }),
{
    InjectResponse::SendEnterResult { id, success, timestamp: now_ms }
}

/// What a broadcast event means for one connection.
#[derive(Debug, Clone, PartialEq, Eq, Structural)]
pub struct ForwardDecision {
    /// Send the event down this connection.
    pub forward: bool,
    /// The id reached a terminal state; stop tracking it.
    pub remove: bool,
    /// The message was delivered; its dedup entry may be dropped.
    pub mark_delivered: bool,
}

/// Per-connection state: the ids whose status stream this connection is
/// waiting on.
pub struct ConnectionState {
    /// Pending ids, in registration order, without duplicates.
    pub pending: Vec<String>,
}

/// Some pending entry equals `id`.
pub open spec fn pending_has(pending: Seq<String>, id: Seq<char>) -> bool {
    exists|i: int| 0 <= i < pending.len() && #[trigger] pending[i]@ == id
}

/// `s` is `pending` with every entry equal to `id` removed, in order.
pub open spec fn pending_without(pending: Seq<String>, id: Seq<char>) -> Seq<String>
    decreases pending.len(),
{
    if pending.len() == 0 {
        pending
    } else {
        let rest = pending_without(pending.drop_last(), id);
        if pending.last()@ != id {
            rest.push(pending.last())
        } else {
            rest
        }
    }
}

impl ConnectionState {
    /// A connection with nothing pending.
    pub fn new() -> (r: Self)
        ensures
            r.pending@.len() == 0,
    {
        Self { pending: Vec::new() }
    }

    /// Registers an id before its enqueue, so no broadcast can outrun the
    /// registration.
    pub fn register_pending(&mut self, id: String)
        ensures
            final(self).pending@ == old(self).pending@.push(id),
    {
        self.pending.push(id);
    }

    /// Drops an id whose inject request was rejected.
    pub fn unregister_pending(&mut self, id: &str)
        ensures
            final(self).pending@ == pending_without(old(self).pending@, id@),
    {
        self.remove_id(id);
    }

    /// Whether the connection is waiting on this id.
    pub fn is_pending(&self, id: &str) -> (r: bool)
        ensures
            r == pending_has(self.pending@, id@),
    {
        let id_chars = str_to_chars(id);
        let mut i: usize = 0;
        while i < self.pending.len()
            invariant
                0 <= i <= self.pending@.len(),
                id_chars@ == id@,
                forall|j: int| 0 <= j < i ==> #[trigger] self.pending@[j]@ != id@,
            decreases self.pending@.len() - i,
        {
            let entry = str_to_chars(self.pending[i].as_str());
            if crate::text::chars_eq(&entry, &id_chars) {
                return true;
            }
            i += 1;
        }
        false
    }

    fn remove_id(&mut self, id: &str)
        ensures
            final(self).pending@ == pending_without(old(self).pending@, id@),
    {
        let id_chars = str_to_chars(id);
        let ghost p0 = self.pending@;
        let mut kept: Vec<String> = Vec::new();
        let mut i: usize = 0;
        while i < self.pending.len()
            invariant
                0 <= i <= self.pending@.len(),
                self.pending@ == p0,
                id_chars@ == id@,
                kept@ == pending_without(p0.subrange(0, i as int), id@),
            decreases self.pending@.len() - i,
        {
            proof {
                assert(p0.subrange(0, i + 1).drop_last() =~= p0.subrange(0, i as int));
            }
            let entry = str_to_chars(self.pending[i].as_str());
            if !crate::text::chars_eq(&entry, &id_chars) {
                let s = self.pending[i].clone();
                proof {
                    assert(s == p0[i as int]);
                }
                kept.push(s);
                proof {
                    assert(p0.subrange(0, i + 1).last() == p0[i as int]);
                    assert(kept@ =~= pending_without(p0.subrange(0, i + 1), id@));
                }
            }
            i += 1;
        }
        proof {
            assert(p0.subrange(0, p0.len() as int) =~= p0);
        }
        self.pending = kept;
    }

    /// What to do with a broadcast event on this connection: forward status
    /// reports for pending ids, except the duplicate `Queued` already sent
    /// directly; on a terminal status stop tracking the id, and on
    /// `Delivered` release its dedup entry.
    pub fn on_broadcast(&mut self, event: &InjectResponse) -> (r: ForwardDecision)
        ensures
            match event {
                InjectResponse::InjectResult { id, status, .. } => {
                    let was_pending = pending_has(old(self).pending@, id@);
                    &&& r.forward == (was_pending && *status != InjectStatus::Queued)
                    &&& r.remove == (was_pending && (*status == InjectStatus::Delivered || *status
                        == InjectStatus::Failed))
                    &&& r.mark_delivered == (r.remove && *status == InjectStatus::Delivered)
                    &&& final(self).pending@ == (if r.remove {
                        pending_without(old(self).pending@, id@)
                    } else {
                        old(self).pending@
                    })
                },
                _ => r == (ForwardDecision { forward: false, remove: false, mark_delivered: false })
                    && *final(self) == *old(self),
            },
    {
        match event {
            InjectResponse::InjectResult { id, status, .. } => {
                let was_pending = self.is_pending(id.as_str());
                let terminal = *status == InjectStatus::Delivered || *status
                    == InjectStatus::Failed;
                let forward = was_pending && *status != InjectStatus::Queued;
                let remove = was_pending && terminal;
                let mark_delivered = remove && *status == InjectStatus::Delivered;
                if remove {
                    self.remove_id(id.as_str());
                }
                ForwardDecision { forward, remove, mark_delivered }
            },
            _ => ForwardDecision { forward: false, remove: false, mark_delivered: false },
        }
    }
}

/// A client handle for the control socket: it only remembers the path; the
/// connecting and line I/O live outside the library.
pub struct SocketClient {
    /// Filesystem path of the socket.
    pub socket_path: String,
}

impl SocketClient {
    /// A client for the socket at `socket_path`.
    pub fn new(socket_path: String) -> (r: Self)
        ensures
            r.socket_path == socket_path,
    {
        Self { socket_path }
    }

    /// Builds the inject request for this client to send.
    pub fn inject_request(&self, id: String, from: String, body: String, priority: i32) -> (r:
        InjectRequest)
        ensures
            r == (InjectRequest::Inject { id, from, body, priority }),
    {
        InjectRequest::Inject { id, from, body, priority }
    }
}

} // verus!
