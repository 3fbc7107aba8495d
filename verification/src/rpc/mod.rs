//! The methods that the coordinator offers over the request/response
//! protocol, and the one that it calls on its clients.

pub mod call;
pub mod insert;
pub mod open;
pub mod serve;
pub mod update;
