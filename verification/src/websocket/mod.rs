//! WebSocket groups and events: the protocol, the client side, the hub and
//! the outgoing queues.
pub mod client;
pub mod hub;
pub mod outbound;
pub mod protocol;
pub mod server;
