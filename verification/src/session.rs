//! The per-connection reader and writer lifecycles.
//!
//! One reader task and one writer task run per connection, around the
//! blocking transport calls. The transport work itself stays outside
//! the library; these functions take the observed event as a plain
//! value and decide, exactly, the task's next state and action.

use vstd::prelude::*;
use crate::message::LINE_TERMINATOR;
use crate::message::Message;
use crate::message::MessageModel;
use crate::message::RelayConfig;
use crate::message::format_for_send;
use crate::message::wire_line;

verus! {

/// Where a per-connection task stands.
#[derive(Clone, Copy, PartialEq, Eq, Structural, Debug)]
pub enum SessionState {
    /// The task keeps serving its connection.
    Connected,
    /// The session ended in an orderly way: the client asked to leave
    /// or the stream ended.
    Disconnected,
    /// The session ended on a failure; the error is terminal for this
    /// connection only and is never retried.
    ErrorExit,
}

/// What a reader task observed in one round.
pub enum ReadEvent {
    /// A line was read, as delivered by the transport, terminator
    /// included when one arrived.
    Line(Vec<u8>),
    /// The peer closed the stream.
    EndOfStream,
    /// The blocking read failed.
    ReadFailed,
    /// The inbound queue rejected the previous forward: the broadcast
    /// loop is gone.
    ForwardFailed,
}

/// What a reader task does next.
pub enum ReaderAction {
    /// Push this message onto the shared inbound queue.
    Forward(Message),
    /// Unregister this client and signal its writer task to stop.
    Teardown,
}

/// What a writer task observed in one round.
pub enum WriteEvent {
    /// Its outbox handed it the next queued message.
    Delivered(Message),
    /// Its outbox was closed by session teardown.
    OutboxClosed,
    /// The write to the connection failed.
    WriteFailed,
}

/// What a writer task does next.
pub enum WriterOutcome {
    /// Put exactly these bytes on the connection.
    Write(Vec<u8>),
    /// Stop without error; teardown already ran elsewhere.
    CleanExit,
    /// Unregister this client (idempotently) and stop.
    Teardown,
}

/// Whether an inbound line asks to end the session: the empty line
/// does, that is, a line with no bytes or one that begins with the
/// terminator itself.
pub open spec fn line_ends_session(line: Seq<u8>) -> bool {
    line.len() == 0 || line[0] == LINE_TERMINATOR
}

/// One round of a reader task: from the read observation to the
/// task's next state and action.
///
/// A non-empty line within the configured bound is forwarded, tagged
/// with this connection's identity. An empty line or the end of the
/// stream disconnects in an orderly way; an over-long line, a failed
/// read or a rejected forward is a terminal error. Every ending
/// tears the session down; nothing is retried.
pub fn reader_step(cfg: &RelayConfig, id: u64, event: ReadEvent) -> (r: (
    SessionState,
    ReaderAction,
))
    ensures
        (match event {
            ReadEvent::Line(line) => {
                if line_ends_session(line@) {
                    r == (SessionState::Disconnected, ReaderAction::Teardown)
                } else if line@.len() > cfg.max_line_len {
                    r == (SessionState::ErrorExit, ReaderAction::Teardown)
                } else {
                    &&& r.0 == SessionState::Connected
                    &&& r.1 matches ReaderAction::Forward(m) && m@ == (MessageModel {
                        origin: Some(id),
                        text: line@,
                    })
                }
            },
            ReadEvent::EndOfStream => r == (SessionState::Disconnected, ReaderAction::Teardown),
            ReadEvent::ReadFailed => r == (SessionState::ErrorExit, ReaderAction::Teardown),
            ReadEvent::ForwardFailed => r == (SessionState::ErrorExit, ReaderAction::Teardown),
        }),
{
    match event {
        ReadEvent::Line(line) => {
            if line.len() == 0 {
                (SessionState::Disconnected, ReaderAction::Teardown)
            } else if line[0] == LINE_TERMINATOR {
                (SessionState::Disconnected, ReaderAction::Teardown)
            } else if line.len() > cfg.max_line_len {
                (SessionState::ErrorExit, ReaderAction::Teardown)
            } else {
                (SessionState::Connected, ReaderAction::Forward(Message {
                    origin: Some(id),
                    text: line,
                }))
            }
        },
        ReadEvent::EndOfStream => (SessionState::Disconnected, ReaderAction::Teardown),
        ReadEvent::ReadFailed => (SessionState::ErrorExit, ReaderAction::Teardown),
        ReadEvent::ForwardFailed => (SessionState::ErrorExit, ReaderAction::Teardown),
    }
}

/// One round of a writer task: from the outbox observation to the
/// task's next state and outcome.
///
/// A delivered message becomes exactly the wire bytes of
/// [`wire_line`]; a closed outbox is the orderly stop signal; a failed
/// write is terminal and tears the session down, harmlessly racing
/// the reader task's own teardown.
pub fn writer_step(cfg: &RelayConfig, event: WriteEvent) -> (r: (SessionState, WriterOutcome))
    ensures
        (match event {
            WriteEvent::Delivered(m) => {
                &&& r.0 == SessionState::Connected
                &&& r.1 matches WriterOutcome::Write(bytes) && bytes@ == wire_line(m@, *cfg)
            },
            WriteEvent::OutboxClosed => r == (SessionState::Disconnected, WriterOutcome::CleanExit),
            WriteEvent::WriteFailed => r == (SessionState::ErrorExit, WriterOutcome::Teardown),
        }),
{
    match event {
        WriteEvent::Delivered(m) => {
            let bytes = format_for_send(&m, cfg);
            (SessionState::Connected, WriterOutcome::Write(bytes))
        },
        WriteEvent::OutboxClosed => (SessionState::Disconnected, WriterOutcome::CleanExit),
        WriteEvent::WriteFailed => (SessionState::ErrorExit, WriterOutcome::Teardown),
    }
}

} // verus!
