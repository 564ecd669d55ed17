//! Forward error correction over batches of packets.

pub mod block;
pub mod codec;
pub mod decoder;
pub mod encoder;
pub mod framing;
pub mod laws;
pub mod rate;

pub use decoder::FrameDecoder;
pub use encoder::FrameEncoder;
pub use framing::{post_decode, pre_encode};
