//! HDSTP: a minimal reliable-transport protocol over an unreliable,
//! packet-oriented channel. A TCP-like three-way handshake, sequenced data
//! delivery with per-packet parity checking and ACK/NAK signaling, bounded
//! retry for every protocol step, and a four-step teardown.

pub mod errors;
pub mod codec;
pub mod segment;
pub mod channel;
pub mod retry;
pub mod engine;
pub mod transfer;
