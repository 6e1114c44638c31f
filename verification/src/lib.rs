//! Connection-handling core of a Minecraft server's wire protocol front door.
//!
//! Raw bytes received from a peer are appended to that peer's buffer, cut
//! into length-prefixed frames, decoded into packets and run through a small
//! per-connection state machine that answers status queries and pings. All
//! socket work is left to the caller: the library only says which bytes to
//! send and when to close.

pub mod buffer;
pub mod json;
pub mod packets;
pub mod responses;
pub mod server;
pub mod utils;
pub mod wire;
