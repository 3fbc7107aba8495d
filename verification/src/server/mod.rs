//! The two actors, as state machines: the coordinator that owns the
//! document, and the session that stands for one connected client. Each
//! takes one message at a time and says what is to be done about it; the
//! mailboxes and the sockets belong to whoever runs them.

pub mod coordinator;
pub mod laws;
pub mod session;
