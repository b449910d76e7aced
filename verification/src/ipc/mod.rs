//! How a client and the daemon speak with each other.

pub mod client;
pub mod protocol;
pub mod server;
