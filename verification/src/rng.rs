//! Deterministic pseudo-random number generation.
//!
//! Every stochastic choice of a simulation (network delay, drop, duplicate,
//! corrupt) draws from a single seeded generator in a fixed call order, so
//! that a run is reproducible from its seed. The generator is a xorshift
//! permutation of a 64-bit word; its successor function is a spec function,
//! so every draw is pinned exactly and determinism is provable.

use vstd::prelude::*;

verus! {

/// The state a zero seed is replaced with: xorshift has 0 as a fixed point.
pub const ZERO_SEED_STATE: u64 = 0x9E3779B97F4A7C15;

/// The successor of a generator state: three xorshift steps.
pub open spec fn spec_rng_next(s: u64) -> u64 {
    let a = s ^ (s << 13);
    let b = a ^ (a >> 7);
    b ^ (b << 17)
}

/// The state a generator starts from for a given seed.
pub open spec fn spec_rng_init(seed: u64) -> u64 {
    if seed == 0 {
        ZERO_SEED_STATE
    } else {
        seed
    }
}

/// A nonzero xorshift state has a nonzero successor.
pub proof fn lemma_rng_next_nonzero(s: u64)
    requires
        s != 0,
    ensures
        spec_rng_next(s) != 0,
{
    assert(spec_rng_next(s) != 0) by (bit_vector)
        requires
            s != 0,
    ;
}

/// The deterministic generator: all draws are functions of the seed alone.
#[derive(Clone, Copy)]
pub struct Rng {
    state: u64,
}

impl Rng {
    /// The current state, exposed for specifications.
    pub closed spec fn view(&self) -> u64 {
        self.state
    }

    /// A generator state is well formed when it is nonzero.
    pub open spec fn wf(&self) -> bool {
        self@ != 0
    }

    /// Seeds a generator.
    pub fn new(seed: u64) -> (r: Rng)
        ensures
            r@ == spec_rng_init(seed),
            r.wf(),
    {
        if seed == 0 {
            Rng { state: ZERO_SEED_STATE }
        } else {
            Rng { state: seed }
        }
    }

    /// Draws the next 64-bit value; the result and the new state coincide.
    pub fn next_u64(&mut self) -> (r: u64)
        requires
            old(self).wf(),
        ensures
            final(self)@ == spec_rng_next(old(self)@),
            r == spec_rng_next(old(self)@),
            final(self).wf(),
    {
        proof {
            lemma_rng_next_nonzero(self.state);
        }
        let a: u64 = self.state ^ (self.state << 13u64);
        let b: u64 = a ^ (a >> 7u64);
        let c: u64 = b ^ (b << 17u64);
        self.state = c;
        c
    }

    /// Draws a value below `bound`.
    pub fn rand_range(&mut self, bound: u64) -> (r: u64)
        requires
            old(self).wf(),
            bound > 0,
    ensures
            final(self)@ == spec_rng_next(old(self)@),
            r == spec_rng_next(old(self)@) % bound,
            r < bound,
            final(self).wf(),
    {
        let v = self.next_u64();
        v % bound
    }
}

} // verus!
