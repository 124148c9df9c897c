//! Status and event vocabulary shared by the whole control surface.

use vstd::prelude::*;

verus! {

/// Result codes for every control-surface operation.
#[derive(Debug, Clone, Copy, PartialEq, Eq, Structural)]
pub enum DwebbleWSResult {
    Okay,
    InvalidHandle,
    InvalidParam,
    AlreadyRunning,
    NotRunning,
    BindFailed,
    TlsError,
    RuntimeError,
    SendFailed,
    ConnectionClosed,
}

/// Event types observable through `poll`.
#[derive(Debug, Clone, Copy, PartialEq, Eq, Structural)]
pub enum DwebbleWSEventType {
    NoEvent,
    ClientConnected,
    ClientDisconnected,
    MessageReceived,
    Error,
}

} // verus!
