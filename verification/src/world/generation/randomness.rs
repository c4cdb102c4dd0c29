use vstd::prelude::*;
use noise::Perlin;
use rand::Rng;

verus! {

#[verifier::external_type_specification]
#[verifier::external_body]
pub struct ExPerlin(noise::Perlin);

/// The Perlin noise generator that `noise::Perlin::new` builds from `seed`.
pub uninterp spec fn perlin_with_seed(seed: u32) -> Perlin;

/// Calls `noise::Perlin::new`, which builds the permutation table of the
/// generator from the seed alone; the contract only names the result.
#[verifier::external_body]
fn perlin_new(seed: u32) -> (p: Perlin)
    ensures
        p == perlin_with_seed(seed),
{
    Perlin::new(seed)
}

/// Calls `rand::thread_rng().gen_range(0..1000000)`; the contract says only
/// that the value lies in the range, which is all rand documents of a
/// random draw.
#[verifier::external_body]
fn random_seed() -> (s: u32)
    ensures
        s < 1000000,
{
    rand::thread_rng().gen_range(0..1000000u32)
}

/// The noise source of world generation.
pub struct RandomnessFunctions {
    pub noise: Perlin,
}

impl RandomnessFunctions {
    /// A noise source seeded with a random seed below 1 000 000.
    pub fn new() -> (r: Self)
        ensures
            exists|seed: u32| seed < 1000000 && r.noise == perlin_with_seed(seed),
    {
        let seed: u32 = random_seed();
        RandomnessFunctions { noise: perlin_new(seed) }
    }
}

} // verus!
