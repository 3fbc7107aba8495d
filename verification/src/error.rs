//! The kinds of failure.

use crate::document::engine::CausalityError;
use vstd::prelude::*;

verus! {

/// The transport could not carry a message.
#[derive(Debug, Clone, Copy, PartialEq, Eq, Structural)]
pub enum TransportError {
    /// The connection was lost.
    ConnectionLost,
    /// Reading or writing failed.
    Io,
    /// No transport speaks the scheme of the locator.
    UnsupportedScheme,
    /// The locator is no URL, or names no host to connect to.
    InvalidLocator,
}

/// A message did not follow the protocol.
#[derive(Debug, Clone, Copy, PartialEq, Eq, Structural)]
pub enum ProtocolError {
    /// The payload is not JSON, or not JSON of the shape that was expected.
    Malformed,
    /// The method of a request is not one that the receiver knows.
    UnrecognizedMethod,
    /// The message names a protocol version other than "2.0".
    VersionMismatch,
    /// The kind of frame is one that the protocol has no use for.
    UnsupportedOperation,
}

/// What can go wrong between a client and the coordinator.
#[derive(Debug, Clone, Copy, PartialEq, Eq, Structural)]
pub enum Error {
    Transport(TransportError),
    Protocol(ProtocolError),
    Causality(CausalityError),
    /// The mailbox of the actor that was addressed is gone.
    ChannelClosed,
    /// The positions are used up: the document takes no more insertions.
    Exhausted,
}

impl Error {
    /// The number by which a response tells this kind of failure from the
    /// others.
    pub open spec fn code_of(self) -> int {
        match self {
            Error::Protocol(ProtocolError::Malformed) => -32700,
            Error::Protocol(ProtocolError::VersionMismatch) => -32600,
            Error::Protocol(ProtocolError::UnsupportedOperation) => -32600,
            Error::Protocol(ProtocolError::UnrecognizedMethod) => -32601,
            Error::Causality(_) => -32602,
            Error::Transport(_) => -32000,
            Error::ChannelClosed => -32001,
            Error::Exhausted => -32603,
        }
    }

    /// What a response says of this kind of failure in words.
    pub open spec fn message_of(self) -> Seq<char> {
        match self {
            Error::Transport(TransportError::ConnectionLost) => "connection lost"@,
            Error::Transport(TransportError::Io) => "reading or writing failed"@,
            Error::Transport(TransportError::UnsupportedScheme) => "unsupported URL scheme"@,
            Error::Transport(TransportError::InvalidLocator) => "invalid locator"@,
            Error::Protocol(ProtocolError::Malformed) => "malformed message"@,
            Error::Protocol(ProtocolError::UnrecognizedMethod) => "unrecognized method"@,
            Error::Protocol(ProtocolError::VersionMismatch) => "version mismatch"@,
            Error::Protocol(ProtocolError::UnsupportedOperation) => "unsupported operation"@,
            Error::Causality(_) => "unknown predecessor"@,
            Error::ChannelClosed => "channel closed"@,
            Error::Exhausted => "positions used up"@,
        }
    }

    /// What a response says of this kind of failure in words.
    pub fn message(&self) -> (text: &'static str)
        ensures
            text@ == self.message_of(),
    {
        match self {
            Error::Transport(TransportError::ConnectionLost) => "connection lost",
            Error::Transport(TransportError::Io) => "reading or writing failed",
            Error::Transport(TransportError::UnsupportedScheme) => "unsupported URL scheme",
            Error::Transport(TransportError::InvalidLocator) => "invalid locator",
            Error::Protocol(ProtocolError::Malformed) => "malformed message",
            Error::Protocol(ProtocolError::UnrecognizedMethod) => "unrecognized method",
            Error::Protocol(ProtocolError::VersionMismatch) => "version mismatch",
            Error::Protocol(ProtocolError::UnsupportedOperation) => "unsupported operation",
            Error::Causality(_) => "unknown predecessor",
            Error::ChannelClosed => "channel closed",
            Error::Exhausted => "positions used up",
        }
    }

    /// The number by which a response tells this kind of failure from the
    /// others.
    pub fn code(&self) -> (r: i64)
        ensures
            r == self.code_of(),
    {
        match self {
            Error::Protocol(ProtocolError::Malformed) => -32700,
            Error::Protocol(ProtocolError::VersionMismatch) => -32600,
            Error::Protocol(ProtocolError::UnsupportedOperation) => -32600,
            Error::Protocol(ProtocolError::UnrecognizedMethod) => -32601,
            Error::Causality(_) => -32602,
            Error::Transport(_) => -32000,
            Error::ChannelClosed => -32001,
            Error::Exhausted => -32603,
        }
    }
}

} // verus!
