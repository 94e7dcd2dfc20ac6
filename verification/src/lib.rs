//! Initiator side of the multistream-select protocol negotiation handshake:
//! a variable-length integer codec, a length-prefixed line codec built on it,
//! and the engine that drives the proposal/response exchange.

use vstd::prelude::*;

pub mod line;
pub mod negotiate;
pub mod varint;

verus! {

/// Everything that can go wrong while framing, parsing, or negotiating.
#[derive(Clone, Copy, Debug, PartialEq, Eq, Structural)]
pub enum Error {
    /// The caller passed zero candidate protocols.
    EmptyCandidateList,
    /// A line's declared or computed length is outside the representable range.
    InvalidLineLength,
    /// A decoded line declares zero length.
    EmptyLine,
    /// A decoded payload does not end in the newline byte.
    MissingTerminator,
    /// A decoded payload is not valid UTF-8.
    InvalidUtf8,
    /// A varint begins with the redundant all-zero continuation byte.
    MalformedVarint,
    /// A varint exceeds the ten-byte bound without terminating.
    VarintTooLarge,
    /// The responder's first reply does not echo the protocol version.
    UnexpectedVersion,
    /// A reply is neither the proposed candidate nor the rejection token.
    UnexpectedResponse,
}

/// Result of running a decoder over the bytes received so far.
#[derive(Debug)]
pub enum Progress<T> {
    /// A complete item was decoded, consuming the given number of bytes.
    Done(T, usize),
    /// The buffer holds a prefix of a valid item; more bytes are needed.
    Incomplete,
    /// The buffer cannot begin a valid item.
    Failed(Error),
}

} // verus!
