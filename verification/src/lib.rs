//! A rateless erasure-code (fountain / LT-code) encoder.
//!
//! The encoder owns an immutable source buffer and a degree distribution
//! approximating a robust soliton distribution, held in 32-bit fixed point
//! so that every probability statement is exact integer arithmetic.  Each
//! emitted packet carries the XOR of a pseudorandomly selected multiset of
//! source bytes, together with the seed that reproduces the selection, and
//! serializes to a fixed 20-byte record with a 3-byte avalanche checksum.

pub mod codec;
pub mod entropy;
pub mod fountain;
pub mod packet;
pub mod soliton;
pub mod xorshift;

pub use fountain::Fountain;
pub use packet::Block;
pub use packet::FountainError;
pub use packet::Packet;
pub use xorshift::XorShift;
