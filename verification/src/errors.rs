//! Error taxonomy of the protocol engine.

use vstd::prelude::*;

verus! {

/// A malformed or truncated frame at decode time. Fatal to the packet being
/// parsed, never to the connection.
#[derive(Copy, Clone, PartialEq, Eq, Structural, Debug)]
pub enum FrameError {
    /// Fewer bytes than the fixed 9-byte envelope, or a multi-byte field
    /// runs past the end of the buffer.
    Truncated,
    /// The declared total length does not match the bytes available.
    LengthMismatch,
    /// The kind code is not one of the eight recognized values.
    UnknownKind,
}

/// A terminal failure of a protocol step, surfaced to the caller as a typed
/// result, never as a silent drop.
#[derive(Copy, Clone, PartialEq, Eq, Structural, Debug)]
pub enum TransferError {
    /// The retry budget of a send-and-await step is spent.
    RetriesExhausted,
    /// A received packet kind is not in the expected set of the current
    /// state; the connection moves to its error state.
    ProtocolViolation,
    /// A malformed frame was met in the middle of an exchange.
    Frame(FrameError),
}

} // verus!
