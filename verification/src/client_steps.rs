//! The decisions of a pipe client around its transport: what a state
//! request does with each message it receives, which messages reach an
//! event stream, and how far a message has been written.

use vstd::prelude::*;

use crate::client_errors::RequestError;
use crate::model::{ClientCommand, EventCommand, Monitor, ReplyCommand};

verus! {

/// What the receiving side handed over.
#[derive(Debug)]
pub enum Received {
    /// A command from the driver.
    Command(ClientCommand),
    /// Receiving failed, with the system's text.
    Failed(String),
    /// Messages were missed because the receiver fell behind.
    Lagged,
    /// The receiving side is gone; with the text of the error that ended
    /// it, if one did.
    Closed(Option<String>),
    /// The time a state request may wait ran out before a reply came.
    TimedOut,
}

/// What a state request does with a message.
#[derive(Debug)]
pub enum RequestStep {
    /// The reply arrived with the driver's monitors.
    Reply(Vec<Monitor>),
    /// The request failed.
    Failed(RequestError),
    /// Keep waiting.
    Wait,
}

/// What an event stream does with a message.
#[derive(Debug)]
pub enum EventStep {
    /// Hand the event on.
    Event(EventCommand),
    /// Hand the error on, with its text.
    Failed(String),
    /// Skip the message.
    Skip,
}

/// How long a state request waits for its reply, in seconds.
pub const REQUEST_TIMEOUT_SECS: u32 = 5;

/// The same time in milliseconds.
pub const REQUEST_TIMEOUT_MS: u64 = 5000;

/// How much longer a state request may wait once `elapsed_ms` milliseconds
/// have passed since it was sent: `None` when the time is up.
pub fn request_wait_left(elapsed_ms: u64) -> (res: Option<u64>)
    ensures
        elapsed_ms < REQUEST_TIMEOUT_MS ==> res == Some((REQUEST_TIMEOUT_MS - elapsed_ms) as u64),
        elapsed_ms >= REQUEST_TIMEOUT_MS ==> res is None,
{
    if elapsed_ms < REQUEST_TIMEOUT_MS {
        Some(REQUEST_TIMEOUT_MS - elapsed_ms)
    } else {
        None
    }
}

/// The text of the error for a pipe that closed without one.
pub open spec fn pipe_closed_text() -> Seq<char> {
    "Pipe closed"@
}

/// What a state request does with a message: a state reply ends it with
/// the monitors; a failure, or the receiving side closing, ends it with an
/// error, as does running out of time; anything else is skipped.
pub fn request_step(received: Received) -> (res: RequestStep)
    ensures
        match received {
            Received::Command(ClientCommand::Reply(ReplyCommand::State(ms))) => res matches RequestStep::Reply(r)
                && r@ == ms@,
            Received::Failed(e) => res matches RequestStep::Failed(RequestError::Receive(t)) && t@ == e@,
            Received::Closed(Some(e)) => res matches RequestStep::Failed(RequestError::Receive(t)) && t@
                == e@,
            Received::Closed(None) => res matches RequestStep::Failed(RequestError::Receive(t)) && t@
                == pipe_closed_text(),
            Received::TimedOut => res matches RequestStep::Failed(RequestError::Timeout(secs)) && secs
                == REQUEST_TIMEOUT_SECS,
            _ => res is Wait,
        },
{
    match received {
        Received::Command(ClientCommand::Reply(ReplyCommand::State(ms))) => RequestStep::Reply(ms),
        Received::Command(_) => RequestStep::Wait,
        Received::Failed(e) => RequestStep::Failed(RequestError::Receive(e)),
        Received::Lagged => RequestStep::Wait,
        Received::Closed(Some(e)) => RequestStep::Failed(RequestError::Receive(e)),
        Received::Closed(None) => RequestStep::Failed(RequestError::Receive("Pipe closed".to_owned())),
        Received::TimedOut => RequestStep::Failed(RequestError::Timeout(REQUEST_TIMEOUT_SECS)),
    }
}

/// What an event stream does with a message: events and failures are
/// handed on, anything else is skipped.
pub fn event_step(received: Received) -> (res: EventStep)
    ensures
        match received {
            Received::Command(ClientCommand::Event(ev)) => res == EventStep::Event(ev),
            Received::Failed(e) => res matches EventStep::Failed(t) && t@ == e@,
            _ => res is Skip,
        },
{
    match received {
        Received::Command(ClientCommand::Event(ev)) => EventStep::Event(ev),
        Received::Command(_) => EventStep::Skip,
        Received::Failed(e) => EventStep::Failed(e),
        Received::Lagged => EventStep::Skip,
        Received::Closed(_) => EventStep::Skip,
        Received::TimedOut => EventStep::Skip,
    }
}

/// How much of a message of `len` bytes is written after a write of `n`
/// more bytes, once `written` were: (bytes written, whether it is done).
pub fn write_progress(written: usize, n: usize, len: usize) -> (res: (usize, bool))
    requires
        written <= len,
        n <= len - written,
    ensures
        res.0 == written + n,
        res.1 == (written + n >= len),
{
    (written + n, written + n >= len)
}

} // verus!
