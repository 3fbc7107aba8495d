//! The request/response protocol: envelopes, their JSON form, and the
//! correlation of a response with its call.

pub mod call;
pub mod codec;
pub mod envelope;
pub mod id;
pub mod laws;
