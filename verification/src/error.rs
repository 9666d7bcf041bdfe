//! Failure taxonomy of the relay protocol.
//!
//! Every failure a connection can see falls in one of four classes, and the
//! class alone decides what the owning session or handler does next: retry,
//! reconnect or deregister, or drop the one offending connection.

use vstd::prelude::*;

verus! {

/// How decoding the buffered input of a connection can fail.
#[derive(Clone, Copy, Debug, PartialEq, Eq, Structural)]
pub enum DecodeError {
    /// The buffer does not yet hold a complete frame: wait for more input.
    Incomplete,
    /// A complete frame arrived but is not a valid encoding: the connection
    /// is violating the protocol and must be dropped.
    Malformed,
    /// The remote side closed the stream: treat as connection loss.
    EndOfStream,
}

/// The kinds of I/O failure the protocol distinguishes.  Mirrors the
/// error kinds a stream socket reports; the application translates each
/// raw I/O error into one of these before asking for a decision.
#[derive(Clone, Copy, Debug, PartialEq, Eq, Structural)]
pub enum IoErrorKind {
    /// A non-blocking operation had nothing to do right now.
    WouldBlock,
    /// The peer reset the connection.
    ConnectionReset,
    /// The peer aborted the connection.
    ConnectionAborted,
    /// The local end wrote into a closed pipe.
    BrokenPipe,
    /// Any other I/O failure.
    Other,
}

/// What a failure means for the session or handler that saw it.
#[derive(Clone, Copy, Debug, PartialEq, Eq, Structural)]
pub enum ErrorClass {
    /// Nothing is wrong: the caller retries later.  Never surfaced.
    Transient,
    /// The connection is gone: the client reconnects, the server
    /// deregisters the user.
    ConnectionLost,
    /// The peer broke the protocol: that one connection is dropped.
    ProtocolViolation,
    /// A second client asked for a username that is already live: the
    /// new connection is rejected.
    RegistrationConflict,
}

/// Classifies a raw I/O failure: only `WouldBlock` is retryable, every
/// other read or write error is fatal to the owning connection.
pub fn classify_io_error(kind: IoErrorKind) -> (c: ErrorClass)
    ensures
        c == (if kind == IoErrorKind::WouldBlock {
            ErrorClass::Transient
        } else {
            ErrorClass::ConnectionLost
        }),
{
    match kind {
        IoErrorKind::WouldBlock => ErrorClass::Transient,
        _ => ErrorClass::ConnectionLost,
    }
}

} // verus!
