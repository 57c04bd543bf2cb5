//! The seeded random source that decides packet fates, delays and ports.

use vstd::prelude::*;
use rand::rngs::StdRng;
use rand::Rng;
use rand::SeedableRng;

verus! {

/// Declares `rand::rngs::StdRng`, the generator of the `rand` crate. The
/// proofs see nothing inside it.
#[verifier::external_type_specification]
#[verifier::external_body]
pub struct ExStdRng(StdRng);

/// Calls `StdRng::seed_from_u64` of the `rand` crate. Nothing is claimed of
/// the generator that comes back.
#[verifier::external_body]
fn seeded_generator(seed: u64) -> StdRng {
    StdRng::seed_from_u64(seed)
}

/// Calls `Rng::gen_range` of the `rand` crate on the half-open range
/// `low..high`. The claim is the one its documentation makes: the value lies
/// in the range. The call panics on an empty range, which `requires` rules
/// out.
#[verifier::external_body]
fn generate_in_range(generator: &mut StdRng, low: u64, high: u64) -> (value: u64)
    requires
        low < high,
    ensures
        low <= value < high,
{
    generator.gen_range(low..high)
}

/// A random source that repeats its draws when it is built from the same
/// seed.
#[derive(Debug)]
pub struct RandomSource {
    generator: StdRng,
}

impl RandomSource {
    /// A source that is seeded with `seed`.
    pub fn new(seed: u64) -> RandomSource {
        RandomSource { generator: seeded_generator(seed) }
    }

    /// A value drawn uniformly from `low..high`.
    pub fn draw(&mut self, low: u64, high: u64) -> (value: u64)
        requires
            low < high,
        ensures
            low <= value < high,
    {
        generate_in_range(&mut self.generator, low, high)
    }
}

} // verus!
