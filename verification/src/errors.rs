//! Error taxonomy of the engine.
//!
//! A protocol error is connection-fatal (except an unknown callback index on
//! resolve, which is logged and dropped by the router). A backend error is
//! surfaced to the single requesting caller unless it is connection-level,
//! in which case it escalates to a closing error for the whole connection.

use vstd::prelude::*;

verus! {

/// A violation of the framed wire protocol. Every variant is
/// connection-fatal: the connection that produced it is torn down.
#[derive(Clone, Copy, PartialEq, Eq, Structural, Debug)]
pub enum ProtocolError {
    /// A frame's declared length exceeds the configured maximum.
    FrameTooLarge,
    /// A message payload is shorter than its fixed-width header.
    MessageTooShort,
    /// A request carried a wire tag outside the closed request enum.
    UnknownRequestTag,
    /// A response carried a wire tag outside the closed response enum.
    UnknownResponseTag,
    /// A request's argument section is not a well-formed sequence of
    /// length-prefixed byte strings.
    MalformedArguments,
    /// A request reused a callback index that is still awaiting its
    /// response on the same connection.
    DuplicateCallbackIndex,
}

/// How far a backend failure reaches.
#[derive(Clone, Copy, PartialEq, Eq, Structural, Debug)]
pub enum BackendErrorKind {
    /// The command failed but the link is usable: the error is surfaced to
    /// the one requesting caller only.
    CommandFailure,
    /// The command may succeed if retried (broken pipe, timeout).
    Transient,
    /// The link itself is unusable: escalates to a closing error for every
    /// pending request on the connection.
    ConnectionFailure,
}

/// A failure reported by the backend store, classified by reach.
#[derive(Clone, PartialEq, Eq, Debug)]
pub struct BackendError {
    pub kind: BackendErrorKind,
    pub message: Vec<u8>,
}

} // verus!
