//! The packet record and its parts.

use vstd::prelude::*;

verus! {

/// The running XOR-accumulation of the selected source blocks: the XOR of
/// the selected positions and the XOR of the bytes at those positions.
#[derive(Clone, Copy, Debug, PartialEq, Eq, Structural)]
pub struct Block {
    pub index: u32,
    pub content: u8,
}

/// One self-describing packet of the fountain stream.
#[derive(Clone, Copy, Debug, PartialEq, Eq, Structural)]
pub struct Packet {
    /// Length of the source buffer in bytes.
    pub total_size: u32,
    /// Number of source blocks combined into this packet.
    pub degree: u32,
    /// Seed that reproduces the block selection sequence.
    pub rng_seed: u32,
    pub xor_block: Block,
}

/// Why an encoder could not be constructed.
#[derive(Clone, Copy, Debug, PartialEq, Eq, Structural)]
pub enum FountainError {
    /// The source buffer is empty or its length does not fit in 32 bits.
    InvalidInput,
    /// The tuning parameters are out of range, or they yield a degenerate
    /// degree distribution.
    InvalidConfiguration,
}

} // verus!
