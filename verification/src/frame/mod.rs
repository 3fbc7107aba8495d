//! The frames that a client and the coordinator exchange, one JSON
//! document each.

pub mod client;
pub mod server;
