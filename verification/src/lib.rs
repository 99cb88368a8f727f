//! Core logic of a PTY supervisor for interactive command-line agents:
//! the priority injection queue with dedup and backpressure, the injector
//! state machine with idle gating and retry escalation, the output parser
//! that mines agent output for relay commands, and the control-socket
//! protocol types.
//!
//! Everything here is pure logic over plain values; process management,
//! file I/O and the event loop live outside the library.

pub mod ansi;
pub mod clock;
pub mod codec;
pub mod inject;
pub mod outbox;
pub mod parser;
pub mod protocol;
pub mod queue;
pub mod socket;
pub mod supervisor;
pub mod text;
