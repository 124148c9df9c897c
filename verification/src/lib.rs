//! Embeddable WebSocket server core: a lifecycle controller, connection
//! registry and event bridge that a host application drives through a
//! create/start/poll/send/stop surface, with the asynchronous network
//! shell kept outside the verified core.

pub mod channel;
pub mod connection;
pub mod events;
pub mod protocol;
pub mod server;
pub mod text;
pub mod tls;
pub mod types;
