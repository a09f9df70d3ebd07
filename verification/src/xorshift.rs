//! The deterministic pseudorandom generator: a 32-bit xorshift recurrence.
//!
//! The generator is a pure function of its 32-bit state: the same seed
//! yields the same output sequence on every platform, which is what lets a
//! receiver replay a packet's block selection from the seed alone.

use vstd::prelude::*;

verus! {

/// One step of the xorshift mixing recurrence:
/// `x ^= x << 13; x ^= x >> 17; x ^= x << 5;` on 32-bit state.
pub open spec fn xs_step(x: u32) -> u32 {
    let a = x ^ (x << 13);
    let b = a ^ (a >> 17);
    b ^ (b << 5)
}

/// The i-th output (0-based) of a generator started from `seed`.
/// Each output is also the state from which the next output is produced.
pub open spec fn xs_out(seed: u32, i: nat) -> u32
    decreases i,
{
    if i == 0 {
        xs_step(seed)
    } else {
        xs_step(xs_out(seed, (i - 1) as nat))
    }
}

/// Rng state using the xorshift recurrence.
pub struct XorShift {
    state: u32,
}

impl XorShift {
    /// The current 32-bit state.
    pub closed spec fn spec_state(&self) -> u32 {
        self.state
    }

    pub fn from_seed(seed: u32) -> (r: XorShift)
        ensures
            r.spec_state() == seed,
    {
        XorShift { state: seed }
    }

    /// Advance the generator one step and return the new state.
    pub fn rand(&mut self) -> (r: u32)
        ensures
            r == xs_step(old(self).spec_state()),
            final(self).spec_state() == r,
    {
        let mut x = self.state;
        x = x ^ (x << 13u32);
        x = x ^ (x >> 17u32);
        x = x ^ (x << 5u32);
        self.state = x;
        x
    }
}

} // verus!
