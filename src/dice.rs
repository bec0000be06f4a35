//! The match's seeded source of randomness.
use vstd::prelude::*;
use rand::rngs::SmallRng;
use rand::{Rng, SeedableRng};

verus! {

#[verifier::external_type_specification]
#[verifier::external_body]
pub struct ExSmallRng(SmallRng);

/// Relies on rand's `SeedableRng::seed_from_u64` for `SmallRng`: a generator
/// whose whole output follows from the seed.
#[verifier::external_body]
pub(crate) fn seeded(seed: u64) -> (r: SmallRng) {
    SmallRng::seed_from_u64(seed)
}

/// Relies on rand's `Rng::gen_range` over `lo..=hi`: a value in that range,
/// which it panics only when the range is empty.
#[verifier::external_body]
pub(crate) fn roll(rng: &mut SmallRng, lo: usize, hi: usize) -> (r: usize)
    requires
        lo <= hi,
    ensures
        lo <= r <= hi,
{
    rng.gen_range(lo..=hi)
}

/// Relies on rand's `Rng::gen` for `bool`: a fair coin flip.
#[verifier::external_body]
pub(crate) fn coin(rng: &mut SmallRng) -> (r: bool) {
    rng.gen::<bool>()
}

} // verus!
