//! The external entropy source: the thread-local generator of the `rand`
//! crate, which supplies the degree draw and the per-packet seed.

use vstd::prelude::*;

verus! {

/// Relies on `rand::random`: one 64-bit value from the thread-local
/// generator.  The value depends on ambient entropy, so nothing is
/// promised of it: every caller must hold for every outcome.
#[verifier::external_body]
pub(crate) fn random_u64() -> u64 {
    rand::random::<u64>()
}

/// Relies on `rand::random`: one 32-bit value from the thread-local
/// generator, used as a packet seed.  Nothing is promised of the value.
#[verifier::external_body]
pub(crate) fn random_u32() -> u32 {
    rand::random::<u32>()
}

} // verus!
