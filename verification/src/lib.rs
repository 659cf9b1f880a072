//! A small UDP game-server core: the wire format of its messages, the
//! registry of connected clients, the spawned entities, and the decisions
//! the server takes for each received datagram or timer tick.

pub mod cleaner;
pub mod float_bits;
pub mod framing;
pub mod handler;
pub mod laws;
pub mod messages;
pub mod peer;
pub mod server;
pub mod spawner;
pub mod structs;
pub mod wire;
