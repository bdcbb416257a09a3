//! The wire protocol: chunk framing, envelope encoding and reassembly.

pub mod codec;
pub mod order;
pub mod parser;
pub mod reassembly;
pub mod types;
pub mod wire;
