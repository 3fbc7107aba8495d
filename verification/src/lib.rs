//! A collaborative text editor's core: a causal-order document engine, the
//! coordinator and session state machines that serialise its mutation, and
//! the request/response protocol spoken between client and coordinator.

pub mod author;
pub mod document;
pub mod error;
pub mod frame;
pub mod json;
pub mod jsonrpc;
pub mod rpc;
pub mod server;
pub mod text;
pub mod transport;
