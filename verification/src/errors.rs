//! The unified failure taxonomy: every error any layer raises is fatal
//! and terminates the session; the caller decides what to do with the
//! connection.
use vstd::prelude::*;

use crate::handshake::{QueryParseError, VersionParseError};
use crate::socket::{ReceiveError, SendError};

verus! {

/// What the client did wrong during the textual preamble.
#[derive(Clone, Copy, Debug, PartialEq, Eq, Structural)]
pub enum ClientError {
    /// The peer's greeting line did not start with the protocol prefix.
    InvalidHeader,
    /// The version field of the greeting did not parse.
    VersionParseError(VersionParseError),
    /// The query line did not parse.
    InvalidQuery(QueryParseError),
    /// A preamble line was not valid UTF-8.
    InvalidUtf8,
}

/// The session-level failure kinds.
#[derive(Clone, Copy, Debug, PartialEq, Eq, Structural)]
pub enum RsyncError {
    /// The underlying byte stream failed or ended early.
    Io,
    /// The client broke the textual preamble.
    ClientError(ClientError),
    /// A preamble line ran past the 1024-byte cap.
    LineTooLarge,
    /// A well-formed but unsupported request.
    Unsupported,
    /// A receive-side protocol failure.
    Receive(ReceiveError),
    /// A send-side protocol failure.
    Send(SendError),
    /// A file entry's basename runs past the 255 bytes its one-byte
    /// length field can name.
    NameTooLong,
    /// A checksum set announced a negative number of blocks.
    NegativeChunkCount,
}

} // verus!
