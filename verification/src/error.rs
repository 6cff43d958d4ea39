//! What can go wrong on one connection.

use vstd::prelude::*;

verus! {

/// A failure of the transport: the peer sent too little, or a read or a write
/// on the socket failed.
#[derive(Clone, Copy, Debug, PartialEq, Eq, Structural)]
pub enum IoError {
    /// Fewer than four bytes were there where a length prefix was due.
    ShortHeader,
    /// Fewer bytes followed the prefix than it announced.
    ShortPayload,
    /// The socket refused a read.
    ReadFailed,
    /// The socket refused a write or a flush.
    WriteFailed,
}

/// A message that breaks the wire protocol.
#[derive(Clone, Copy, Debug, PartialEq, Eq, Structural)]
pub enum ProtocolError {
    /// The payload is longer than a 32-bit length prefix can announce.
    PayloadTooLarge,
    /// The payload is not UTF-8.
    InvalidUtf8,
    /// The payload is not a JSON array of turns.
    InvalidJson,
    /// The conversation holds no turn.
    NoMessages,
}

/// Why a connection ended early. None of these leaves the connection: the
/// peer only ever sees it close.
#[derive(Clone, Copy, Debug, PartialEq, Eq, Structural)]
pub enum HandlerError {
    Io(IoError),
    Protocol(ProtocolError),
    /// The completion engine could not be started.
    Engine,
    /// Something was reported that the connection was not waiting for.
    Unexpected,
}

} // verus!
