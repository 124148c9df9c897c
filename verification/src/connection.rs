//! Per-connection identity and the outbound side of one connection.

use vstd::prelude::*;
use crate::channel::{send_binary, send_close, send_text_frame, MessageSender};

verus! {

/// Hands out the next connection identifier from a monotonically
/// increasing counter. Identifiers are never reused: every call moves
/// the counter forward, so each id is handed out at most once.
pub fn next_connection_id(counter: &mut u64) -> (id: u64)
    requires
        *old(counter) < u64::MAX,
    ensures
        id == *old(counter),
        *final(counter) == *old(counter) + 1,
{
    let id = *counter;
    *counter = *counter + 1;
    id
}

/// A single registered connection: its identity, the remote peer's
/// address, the negotiated subprotocol, and the write-only handle to its
/// outbound message queue.
pub struct Connection {
    pub id: u64,
    pub remote_addr: String,
    pub subprotocol: Option<String>,
    pub tx: MessageSender,
}

impl Connection {
    /// Builds the record for a freshly accepted connection.
    pub fn new(id: u64, remote_addr: String, subprotocol: Option<String>, tx: MessageSender) -> (c:
        Connection)
        ensures
            c.id == id,
            c.remote_addr == remote_addr,
            c.subprotocol == subprotocol,
            c.tx == tx,
    {
        Connection { id, remote_addr, subprotocol, tx }
    }

    /// Enqueues a binary message; true means it was accepted by the
    /// queue, false that the writer has already exited.
    pub fn send(&self, data: &[u8]) -> bool {
        send_binary(&self.tx, data)
    }

    /// Enqueues a text message; true means it was accepted by the
    /// queue, false that the writer has already exited.
    pub fn send_text(&self, text: &str) -> bool {
        send_text_frame(&self.tx, text)
    }

    /// Asks the peer to close, best effort.
    pub fn close(&self) {
        send_close(&self.tx)
    }
}

} // verus!
