//! Trusted boundary to the outbound message channel: the write-only handle
//! of the unbounded FIFO queue that carries outbound frames to a
//! connection's writer task.

use vstd::prelude::*;

verus! {

/// The sender half of tokio's unbounded channel, carrying WebSocket
/// messages to one connection's writer task.
#[verifier::external_type_specification]
#[verifier::external_body]
#[verifier::reject_recursive_types(T)]
pub struct ExUnboundedSender<T>(tokio::sync::mpsc::UnboundedSender<T>);

/// A WebSocket frame as tungstenite represents it.
#[verifier::external_type_specification]
#[verifier::external_body]
pub struct ExMessage(tokio_tungstenite::tungstenite::Message);

/// The write-only handle to one connection's outbound queue.
pub type MessageSender = tokio::sync::mpsc::UnboundedSender<
    tokio_tungstenite::tungstenite::Message,
>;

/// Relies on tokio's `UnboundedSender::send`: enqueues a Binary frame
/// without blocking; returns false only when the receiving half is gone.
#[verifier::external_body]
pub(crate) fn send_binary(tx: &MessageSender, data: &[u8]) -> bool {
    tx.send(tokio_tungstenite::tungstenite::Message::Binary(data.to_vec().into())).is_ok()
}

/// Relies on tokio's `UnboundedSender::send`: enqueues a Text frame
/// without blocking; returns false only when the receiving half is gone.
#[verifier::external_body]
pub(crate) fn send_text_frame(tx: &MessageSender, text: &str) -> bool {
    tx.send(tokio_tungstenite::tungstenite::Message::Text(text.to_string().into())).is_ok()
}

/// Relies on tokio's `UnboundedSender::send`: enqueues a Close frame,
/// best effort; the outcome is deliberately discarded.
#[verifier::external_body]
pub(crate) fn send_close(tx: &MessageSender) {
    let _ = tx.send(tokio_tungstenite::tungstenite::Message::Close(None));
}

} // verus!
