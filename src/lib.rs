//! A reliable, ordered, typed messaging layer over an unreliable datagram transport.
//!
//! - [`net`]: the 12-byte wire header, wrap-aware sequence numbers, connection status.
//! - [`message_table`]: the registry that gives message types their [`net::MType`]s.
//! - [`messages`]: the bodies of the acknowledgement and ping control messages.
//! - [`ack_system`]: the acknowledgement window, residual acks and saved reliable sends.
//! - [`ordering`]: per-type reorder buffers.
//! - [`reliable`]: acknowledgements and ordering put together for one connection.
//! - [`ping_system`]: round-trip-time estimation.
//! - [`client_connection`]: the client's status state machine and its tick.
//! - [`connection_list`]: the server's directory of connections.

pub mod ack_system;
pub mod client_connection;
pub mod connection_list;
pub mod message_table;
pub mod messages;
pub mod net;
pub mod ordering;
pub mod ping_system;
pub mod reliable;
