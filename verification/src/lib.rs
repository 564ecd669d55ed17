//! Verified core of a multiplexed, FEC-protected datagram transport.
//!
//! * [`fec`] holds the adaptive Reed-Solomon frame codec: shard framing, the
//!   parity-count rule, the encoder and the single-use decoder.
//! * [`mux`] holds the decisions of the stream multiplexer: which frame
//!   creates, feeds or resets which stream.

pub mod fec;
pub mod mux;
