//! Shared cursors for people looking at the same page: the binary wire
//! format, the registry of rooms, and the state machine of one connection.

pub mod client;
pub mod event;
pub mod message;
pub mod presence;
pub mod registry;
pub mod session;
pub mod wire;
