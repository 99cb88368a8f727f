//! Protocol types: the requests and responses of the control socket, parsed
//! relay commands, queued messages with their injection formatting, and the
//! supervisor configuration.

use vstd::prelude::*;

use crate::text::{chars_to_string, matches_at, push_chars, starts_with, str_to_chars, sub_chars};

verus! {

/// Request sent to the control socket.
#[derive(Debug, Clone)]
pub enum InjectRequest {
    /// Inject a relay message into the agent.
    Inject { id: String, from: String, body: String, priority: i32 },
    /// Query current status.
    Status,
    /// Write a lone carriage return to the agent.
    SendEnter { id: String },
    /// Graceful shutdown request.
    Shutdown,
}

/// Status of an injection attempt.
#[derive(Debug, Clone, Copy, PartialEq, Eq, Structural)]
pub enum InjectStatus {
    /// Message queued for injection.
    Queued,
    /// Currently being injected.
    Injecting,
    /// Successfully written to the agent.
    Delivered,
    /// Injection failed after retries.
    Failed,
}

/// Response sent back through the control socket.
#[derive(Debug, Clone)]
pub enum InjectResponse {
    /// Per-message status report.
    InjectResult { id: String, status: InjectStatus, timestamp: u64, error: Option<String> },
    /// Snapshot of the supervisor state.
    Status {
        agent_idle: bool,
        queue_length: usize,
        cursor_position: Option<[u16; 2]>,
        last_output_ms: u64,
    },
    /// Queue capacity notification.
    Backpressure { queue_length: usize, accept: bool },
    /// Result of a `SendEnter` request.
    SendEnterResult { id: String, success: bool, timestamp: u64 },
    /// Shutdown acknowledged.
    ShutdownAck,
    /// Error response.
    Error { message: String },
}

/// Synchronization metadata for blocking messages.
#[derive(Debug, Clone, PartialEq)]
pub struct SyncMeta {
    /// Whether the sender should block awaiting a response.
    pub blocking: bool,
    /// Optional timeout in milliseconds.
    pub timeout_ms: Option<u64>,
}

/// Relay command parsed from agent output.
#[derive(Debug, Clone, PartialEq)]
pub struct ParsedRelayCommand {
    /// Type identifier, always `"relay_command"`.
    pub cmd_type: String,
    /// Command kind: `"message"`, `"spawn"` or `"release"`.
    pub kind: String,
    /// Sender, the wrapped agent's name.
    pub from: String,
    /// Target agent, channel or broadcast, for messages.
    pub to: String,
    /// Message body.
    pub body: String,
    /// Raw text that was parsed.
    pub raw: String,
    /// Optional thread identifier.
    pub thread: Option<String>,
    /// Optional sync metadata for blocking messages.
    pub sync: Option<SyncMeta>,
    /// For spawn: agent name to spawn.
    pub spawn_name: Option<String>,
    /// For spawn: CLI to use.
    pub spawn_cli: Option<String>,
    /// For spawn: task description.
    pub spawn_task: Option<String>,
    /// For release: agent name to release.
    pub release_name: Option<String>,
}

impl ParsedRelayCommand {
    /// A plain message command addressed to `to`.
    pub fn new_message(from: String, to: String, body: String, raw: String) -> (r: Self)
        ensures
            r.cmd_type@ == "relay_command"@,
            r.kind@ == "message"@,
            r.from == from,
            r.to == to,
            r.body == body,
            r.raw == raw,
            r.thread is None,
            r.sync is None,
            r.spawn_name is None,
            r.spawn_cli is None,
            r.spawn_task is None,
            r.release_name is None,
    {
        Self {
            cmd_type: "relay_command".to_owned(),
            kind: "message".to_owned(),
            from,
            to,
            body,
            raw,
            thread: None,
            sync: None,
            spawn_name: None,
            spawn_cli: None,
            spawn_task: None,
            release_name: None,
        }
    }

    /// A spawn command: start agent `name` under `cli` with `task`.
    pub fn new_spawn(from: String, name: String, cli: String, task: String, raw: String) -> (r:
        Self)
        ensures
            r.cmd_type@ == "relay_command"@,
            r.kind@ == "spawn"@,
            r.from == from,
            r.to@ == "spawn"@,
            r.body@ == task@,
            r.raw == raw,
            r.thread is None,
            r.sync is None,
            r.spawn_name matches Some(n) && n == name,
            r.spawn_cli matches Some(c) && c == cli,
            r.spawn_task matches Some(t) && t == task,
            r.release_name is None,
    {
        let body = task.clone();
        Self {
            cmd_type: "relay_command".to_owned(),
            kind: "spawn".to_owned(),
            from,
            to: "spawn".to_owned(),
            body,
            raw,
            thread: None,
            sync: None,
            spawn_name: Some(name),
            spawn_cli: Some(cli),
            spawn_task: Some(task),
            release_name: None,
        }
    }

    /// A release command: stop agent `name`.
    pub fn new_release(from: String, name: String, raw: String) -> (r: Self)
        ensures
            r.cmd_type@ == "relay_command"@,
            r.kind@ == "release"@,
            r.from == from,
            r.to@ == "release"@,
            r.body@ == name@,
            r.raw == raw,
            r.thread is None,
            r.sync is None,
            r.spawn_name is None,
            r.spawn_cli is None,
            r.spawn_task is None,
            r.release_name matches Some(n) && n == name,
    {
        let body = name.clone();
        Self {
            cmd_type: "relay_command".to_owned(),
            kind: "release".to_owned(),
            from,
            to: "release".to_owned(),
            body,
            raw,
            thread: None,
            sync: None,
            spawn_name: None,
            spawn_cli: None,
            spawn_task: None,
            release_name: Some(name),
        }
    }

    /// The same command with the thread identifier set.
    pub fn with_thread(self, thread: String) -> (r: Self)
        ensures
            r == (Self { thread: Some(thread), ..self }),
    {
        Self { thread: Some(thread), ..self }
    }

    /// The same command with the sync metadata set.
    pub fn with_sync(self, sync: SyncMeta) -> (r: Self)
        ensures
            r == (Self { sync: Some(sync), ..self }),
    {
        Self { sync: Some(sync), ..self }
    }
}

/// Continuity command parsed from a file-backed message: a request to save,
/// load or flag the agent's working state.
#[derive(Debug, Clone, PartialEq)]
pub struct ContinuityCommand {
    /// Type identifier, always `"continuity"`.
    pub cmd_type: String,
    /// Action: `"save"`, `"load"` or `"uncertain"`.
    pub action: String,
    /// Free-form content body.
    pub content: String,
}

impl ContinuityCommand {
    /// A continuity command with the given action and content.
    pub fn new(action: String, content: String) -> (r: Self)
        ensures
            r.cmd_type@ == "continuity"@,
            r.action == action,
            r.content == content,
    {
        Self { cmd_type: "continuity".to_owned(), action, content }
    }
}

/// Internal message of the injection queue.
#[derive(Debug, Clone)]
pub struct QueuedMessage {
    /// Unique message id.
    pub id: String,
    /// Sender name.
    pub from: String,
    /// Message body.
    pub body: String,
    /// Priority; lower comes earlier.
    pub priority: i32,
    /// Retry count, starting at zero.
    pub retries: u32,
    /// Millisecond timestamp taken when the message was queued.
    pub queued_at: u64,
}

/// The marker that opens every injected message; a body that already starts
/// with it is treated as pre-formatted.
pub open spec fn relay_prefix() -> Seq<char> {
    "Relay message from "@
}

/// The id as shown in brackets: its first seven characters.
pub open spec fn short_id_spec(id: Seq<char>) -> Seq<char> {
    if id.len() <= 7 {
        id
    } else {
        id.subrange(0, 7)
    }
}

/// The escalation prefix for a retry count: nothing on the first attempt,
/// `[RETRY] ` on the second, `[URGENT - PLEASE ACKNOWLEDGE] ` from the third
/// on.
pub open spec fn retry_prefix_spec(retries: u32) -> Seq<char> {
    if retries == 0 {
        Seq::<char>::empty()
    } else if retries == 1 {
        "[RETRY] "@
    } else {
        "[URGENT - PLEASE ACKNOWLEDGE] "@
    }
}

/// The full injected text of a message: the escalation prefix, then either
/// the body itself (when pre-formatted) or
/// `Relay message from <from> [<short id>]: <body>`.
pub open spec fn format_for_injection_spec(msg: QueuedMessage) -> Seq<char> {
    if starts_with(msg.body@, relay_prefix()) {
        retry_prefix_spec(msg.retries) + msg.body@
    } else {
        retry_prefix_spec(msg.retries) + relay_prefix() + msg.from@ + " ["@ + short_id_spec(
            msg.id@,
        ) + "]: "@ + msg.body@
    }
}

impl QueuedMessage {
    /// A fresh message with no retries, stamped with the given queue time.
    pub fn new(id: String, from: String, body: String, priority: i32) -> (r: Self)
        ensures
            r.id == id,
            r.from == from,
            r.body == body,
            r.priority == priority,
            r.retries == 0,
    {
        let queued_at = crate::clock::current_timestamp_ms();
        Self { id, from, body, priority, retries: 0, queued_at }
    }

    /// Formats the message for injection, with escalating urgency prefixes
    /// on retries; a body that already begins with `Relay message from ` is
    /// used as is, so it is never wrapped twice.
    pub fn format_for_injection(&self) -> (r: String)
        ensures
            r@ == format_for_injection_spec(*self),
    {
        let body = str_to_chars(self.body.as_str());
        let prefix = str_to_chars("Relay message from ");
        let mut out: Vec<char> = Vec::new();
        if self.retries == 1 {
            let p = str_to_chars("[RETRY] ");
            push_chars(&mut out, &p);
        } else if self.retries >= 2 {
            let p = str_to_chars("[URGENT - PLEASE ACKNOWLEDGE] ");
            push_chars(&mut out, &p);
        }
        assert(out@ =~= retry_prefix_spec(self.retries));
        if matches_at(&body, &prefix, 0) {
            assert(starts_with(self.body@, relay_prefix()));
            push_chars(&mut out, &body);
            assert(out@ =~= format_for_injection_spec(*self));
            chars_to_string(&out)
        } else {
            assert(!starts_with(self.body@, relay_prefix()));
            let id = str_to_chars(self.id.as_str());
            let cut = if id.len() <= 7 {
                id.len()
            } else {
                7
            };
            let short = sub_chars(&id, 0, cut);
            assert(short@ =~= short_id_spec(self.id@));
            let from = str_to_chars(self.from.as_str());
            let open_bracket = str_to_chars(" [");
            let close_bracket = str_to_chars("]: ");
            push_chars(&mut out, &prefix);
            push_chars(&mut out, &from);
            push_chars(&mut out, &open_bracket);
            push_chars(&mut out, &short);
            push_chars(&mut out, &close_bracket);
            push_chars(&mut out, &body);
            assert(out@ =~= format_for_injection_spec(*self));
            chars_to_string(&out)
        }
    }
}

/// A body that is already formatted is never wrapped a second time: the
/// result is exactly the escalation prefix followed by the body.
pub proof fn lemma_preformatted_not_wrapped(msg: QueuedMessage)
    requires
        starts_with(msg.body@, relay_prefix()),
    ensures
        format_for_injection_spec(msg) == retry_prefix_spec(msg.retries) + msg.body@,
{
}

/// On the first attempt a pre-formatted body is returned unchanged.
pub proof fn lemma_preformatted_unchanged(msg: QueuedMessage)
    requires
        starts_with(msg.body@, relay_prefix()),
        msg.retries == 0,
    ensures
        format_for_injection_spec(msg) == msg.body@,
{
    assert(format_for_injection_spec(msg) =~= msg.body@);
}

/// The injected text always opens with the escalation prefix for the
/// message's retry count: nothing, then `[RETRY] `, then
/// `[URGENT - PLEASE ACKNOWLEDGE] ` as attempts mount.
pub proof fn lemma_retry_escalation(msg: QueuedMessage)
    ensures
        starts_with(format_for_injection_spec(msg), retry_prefix_spec(msg.retries)),
{
    let p = retry_prefix_spec(msg.retries);
    let f = format_for_injection_spec(msg);
    assert(f.subrange(0, p.len() as int) =~= p);
}

/// Stale file report for the outbox watcher: a message file that was written
/// but whose trigger never appeared in the agent's output.
#[derive(Debug, Clone)]
pub struct StaleOutboxFile {
    /// Type identifier, always `"stale_outbox_file"`.
    pub event_type: String,
    /// File name inside the outbox.
    pub file: String,
    /// Full path of the file.
    pub path: String,
    /// Age of the file in seconds when it was reported.
    pub age_seconds: u64,
    /// The agent whose outbox holds the file.
    pub agent: String,
}

impl StaleOutboxFile {
    /// A stale-file event with the given coordinates.
    pub fn new(file: String, path: String, age_seconds: u64, agent: String) -> (r: Self)
        ensures
            r.event_type@ == "stale_outbox_file"@,
            r.file == file,
            r.path == path,
            r.age_seconds == age_seconds,
            r.agent == agent,
    {
        Self { event_type: "stale_outbox_file".to_owned(), file, path, age_seconds, agent }
    }
}

/// Configuration of the supervisor.
#[derive(Debug, Clone)]
pub struct Config {
    /// Agent name.
    pub name: String,
    /// Control socket path.
    pub socket_path: String,
    /// Regex pattern that detects the agent's prompt.
    pub prompt_pattern: String,
    /// Milliseconds of silence before the agent counts as idle.
    pub idle_timeout_ms: u64,
    /// Maximum messages in the queue before backpressure.
    pub queue_max: usize,
    /// Whether parsed commands are emitted as JSON lines.
    pub json_output: bool,
    /// The child command and its arguments.
    pub command: Vec<String>,
    /// Maximum injection retries.
    pub max_retries: u32,
    /// Delay between retries in milliseconds.
    pub retry_delay_ms: u64,
}

impl Default for Config {
    /// The stock configuration: agent `agent`, socket `/tmp/relay-pty-agent.sock`,
    /// prompt `^[>$%#] $`, half-second idle timeout, queue of 50, three retries
    /// 300 ms apart.
    fn default() -> (r: Self)
        ensures
            r.name@ == "agent"@,
            r.socket_path@ == "/tmp/relay-pty-agent.sock"@,
            r.prompt_pattern@ == "^[>$%#] $"@,
            r.idle_timeout_ms == 500,
            r.queue_max == 50,
            !r.json_output,
            r.command@.len() == 0,
            r.max_retries == 3,
            r.retry_delay_ms == 300,
    {
        Self {
            name: "agent".to_owned(),
            socket_path: "/tmp/relay-pty-agent.sock".to_owned(),
            prompt_pattern: "^[>$%#] $".to_owned(),
            idle_timeout_ms: 500,
            queue_max: 50,
            json_output: false,
            command: Vec::new(),
            max_retries: 3,
            retry_delay_ms: 300,
        }
    }
}

/// Snapshot of the supervisor state, answered to a `Status` request.
#[derive(Debug, Clone)]
pub struct StatusInfo {
    /// Whether the agent appears idle.
    pub agent_idle: bool,
    /// Number of messages in the queue.
    pub queue_length: usize,
    /// Cursor position, when known.
    pub cursor_position: Option<[u16; 2]>,
    /// Milliseconds since the last output.
    pub last_output_ms: u64,
}

/// Queue statistics.
#[derive(Debug, Clone)]
pub struct QueueStats {
    /// Messages currently queued.
    pub queue_length: usize,
    /// Configured capacity.
    pub max_size: usize,
    /// Ids currently held for deduplication.
    pub seen_count: usize,
}

} // verus!
