//! An explicit pseudo-random source.
//!
//! Every sampling helper takes the source as an argument, so rendering is
//! deterministic for a fixed seed and independent sources can serve
//! independent workers.

use vstd::prelude::*;

verus! {

use crate::fixed::FX_ONE;

#[verifier::external_type_specification]
#[verifier::external_body]
pub struct ExStdRng(rand::rngs::StdRng);

/// A seeded pseudo-random generator. Nothing is assumed of the values it
/// yields beyond their range, so every consumer is verified for every
/// possible draw.
pub struct RandomSource {
    rng: rand::rngs::StdRng,
}

impl RandomSource {
    /// Relies on rand's `SeedableRng::seed_from_u64` for `StdRng`: it
    /// builds a generator deterministically from the seed.
    #[verifier::external_body]
    pub fn from_seed(seed: u64) -> RandomSource {
        RandomSource { rng: rand::SeedableRng::seed_from_u64(seed) }
    }

    /// Relies on rand's `RngExt::random_range` over `0..bound`: it returns
    /// a value of that range, and panics only on an empty range, which the
    /// precondition rules out.
    #[verifier::external_body]
    pub fn next_below(&mut self, bound: i64) -> (r: i64)
        requires
            bound >= 1,
        ensures
            0 <= r < bound,
    {
        rand::RngExt::random_range(&mut self.rng, 0..bound)
    }
}

/// A scalar drawn uniformly from `[0, 1)`.
pub fn random_scalar(rng: &mut RandomSource) -> (r: i64)
    ensures
        0 <= r < FX_ONE,
{
    rng.next_below(FX_ONE)
}

/// A scalar drawn uniformly from `[min, max)`.
pub fn random_scalar_range(rng: &mut RandomSource, min: i64, max: i64) -> (r: i64)
    requires
        min < max,
        max as int - min as int <= i64::MAX as int,
    ensures
        min <= r < max,
{
    let span: i64 = max - min;
    let off: i64 = rng.next_below(span);
    min + off
}

} // verus!
