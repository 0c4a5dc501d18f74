//! Errors of talking to the driver over its pipe, holding the system's
//! description of what went wrong, and the forms in which the language
//! bindings hand errors over.

use vstd::prelude::*;

use crate::driver_client::{AddModeError as CoreAddModeError, MonNotFound};
use crate::messages::push_str;
use crate::text::{decimal, push_decimal, string_from_chars};
use crate::validation::DuplicateError as CoreDuplicateError;

verus! {

/// The pipe could not be opened.
#[derive(Debug)]
pub enum ConnectionError {
    Failed(String),
}

/// A message could not be sent.
#[derive(Debug)]
pub enum SendError {
    PipeBroken(String),
}

/// A state request failed.
#[derive(Debug)]
pub enum RequestError {
    /// The request could not be sent.
    Send(String),
    /// The reply could not be received.
    Receive(String),
    /// No reply came within this many seconds.
    Timeout(u32),
}

/// An event could not be received.
#[derive(Debug)]
pub struct ReceiveError(pub String);

/// The text `prefix` followed by `detail`.
fn prefixed(prefix: &str, detail: &String) -> (res: String)
    ensures
        res@ == prefix@ + detail@,
{
    let mut out: Vec<char> = Vec::new();
    push_str(&mut out, prefix);
    push_str(&mut out, detail.as_str());
    string_from_chars(out.as_slice())
}

impl ConnectionError {
    /// The error's text.
    pub fn message(&self) -> (res: String)
        ensures
            match self {
                ConnectionError::Failed(d) => res@ == "Failed to open pipe: "@ + d@,
            },
    {
        match self {
            ConnectionError::Failed(d) => prefixed("Failed to open pipe: ", d),
        }
    }
}

impl SendError {
    /// The error's text.
    pub fn message(&self) -> (res: String)
        ensures
            match self {
                SendError::PipeBroken(d) => res@ == "Failed to send message: "@ + d@,
            },
    {
        match self {
            SendError::PipeBroken(d) => prefixed("Failed to send message: ", d),
        }
    }
}

impl RequestError {
    /// The error's text.
    pub fn message(&self) -> (res: String)
        ensures
            match self {
                RequestError::Send(d) => res@ == "Failed to send message (pipe broken): "@ + d@,
                RequestError::Receive(d) => res@ == "Failed to receive message (pipe broken): "@ + d@,
                RequestError::Timeout(secs) => res@ == "Did not get a response in time ("@ + decimal(
                    *secs as nat,
                ) + "s)"@,
            },
    {
        match self {
            RequestError::Send(d) => prefixed("Failed to send message (pipe broken): ", d),
            RequestError::Receive(d) => prefixed("Failed to receive message (pipe broken): ", d),
            RequestError::Timeout(secs) => {
                let mut out: Vec<char> = Vec::new();
                push_str(&mut out, "Did not get a response in time (");
                push_decimal(&mut out, *secs);
                push_str(&mut out, "s)");
                string_from_chars(out.as_slice())
            },
        }
    }
}

impl ReceiveError {
    /// The error's text.
    pub fn message(&self) -> (res: String)
        ensures
            res@ == "Failed to receive event: "@ + self.0@,
    {
        prefixed("Failed to receive event: ", &self.0)
    }
}

/// A duplicate, with named fields, as the bindings hand it over.
#[derive(Debug, Clone, Copy, PartialEq, Eq, Structural)]
pub enum DuplicateError {
    Monitor { id: u32 },
    Mode { monitor_id: u32, width: u32, height: u32 },
    RefreshRate { monitor_id: u32, width: u32, height: u32, refresh_rate: u32 },
}

impl From<CoreDuplicateError> for DuplicateError {
    fn from(value: CoreDuplicateError) -> (res: Self) {
        match value {
            CoreDuplicateError::Monitor(id) => DuplicateError::Monitor { id },
            CoreDuplicateError::Mode(width, height, monitor_id) => DuplicateError::Mode {
                monitor_id,
                width,
                height,
            },
            CoreDuplicateError::RefreshRate(refresh_rate, width, height, monitor_id) => {
                DuplicateError::RefreshRate { monitor_id, width, height, refresh_rate }
            },
        }
    }
}

impl vstd::std_specs::convert::FromSpecImpl<CoreDuplicateError> for DuplicateError {
    open spec fn obeys_from_spec() -> bool {
        true
    }

    open spec fn from_spec(value: CoreDuplicateError) -> Self {
        match value {
            CoreDuplicateError::Monitor(id) => DuplicateError::Monitor { id },
            CoreDuplicateError::Mode(width, height, monitor_id) => DuplicateError::Mode {
                monitor_id,
                width,
                height,
            },
            CoreDuplicateError::RefreshRate(refresh_rate, width, height, monitor_id) => {
                DuplicateError::RefreshRate { monitor_id, width, height, refresh_rate }
            },
        }
    }
}

/// A missing monitor, as the bindings hand it over.
#[derive(Debug, Clone, Copy, PartialEq, Eq, Structural)]
pub struct MonitorNotFoundError {
    pub id: u32,
}

impl From<MonNotFound> for MonitorNotFoundError {
    fn from(value: MonNotFound) -> (res: Self) {
        MonitorNotFoundError { id: value.0 }
    }
}

impl vstd::std_specs::convert::FromSpecImpl<MonNotFound> for MonitorNotFoundError {
    open spec fn obeys_from_spec() -> bool {
        true
    }

    open spec fn from_spec(value: MonNotFound) -> Self {
        MonitorNotFoundError { id: value.0 }
    }
}

/// An error of adding a mode, as the bindings hand it over.
#[derive(Debug, Clone, Copy, PartialEq, Eq, Structural)]
pub enum AddModeError {
    MonitorNotFound { id: u32 },
    ModeExists { monitor_id: u32, width: u32, height: u32 },
    RefreshRateExists { monitor_id: u32, width: u32, height: u32, refresh_rate: u32 },
}

impl From<CoreAddModeError> for AddModeError {
    fn from(value: CoreAddModeError) -> (res: Self) {
        match value {
            CoreAddModeError::MonNotFound(id) => AddModeError::MonitorNotFound { id },
            CoreAddModeError::DupMode(monitor_id, width, height) => AddModeError::ModeExists {
                monitor_id,
                width,
                height,
            },
            CoreAddModeError::DupRefreshRate(refresh_rate, width, height, monitor_id) => {
                AddModeError::RefreshRateExists { monitor_id, width, height, refresh_rate }
            },
        }
    }
}

impl vstd::std_specs::convert::FromSpecImpl<CoreAddModeError> for AddModeError {
    open spec fn obeys_from_spec() -> bool {
        true
    }

    open spec fn from_spec(value: CoreAddModeError) -> Self {
        match value {
            CoreAddModeError::MonNotFound(id) => AddModeError::MonitorNotFound { id },
            CoreAddModeError::DupMode(monitor_id, width, height) => AddModeError::ModeExists {
                monitor_id,
                width,
                height,
            },
            CoreAddModeError::DupRefreshRate(refresh_rate, width, height, monitor_id) => {
                AddModeError::RefreshRateExists { monitor_id, width, height, refresh_rate }
            },
        }
    }
}

/// The errors of the second language binding, each with the text of the
/// error it stands for where there is one.
#[derive(Debug)]
pub enum IpcError {
    SerDe(String),
    Io(String),
    Win(String),
    Client(String),
    RequestState,
    Receive,
    ConnectionFailed(String),
    SendFailed,
}

} // verus!
