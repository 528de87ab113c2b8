use vstd::prelude::*;
use rand::Rng;
use rand::SeedableRng;
use rand::seq::SliceRandom;

verus! {

#[verifier::external_type_specification]
#[verifier::external_body]
pub struct ExStdRng(rand::rngs::StdRng);

/// Relies on rand's `StdRng::seed_from_u64`: builds a generator from a seed.
#[verifier::external_body]
fn seed_rng(seed: u64) -> rand::rngs::StdRng {
    rand::rngs::StdRng::seed_from_u64(seed)
}

/// Relies on rand's `StdRng::from_entropy`: builds a generator seeded by the
/// operating system.
#[verifier::external_body]
fn entropy_rng() -> rand::rngs::StdRng {
    rand::rngs::StdRng::from_entropy()
}

/// Relies on rand's `Rng::gen` for `bool`: draws one boolean. Nothing holds
/// of the outcome; callers must be correct for either value.
#[verifier::external_body]
fn draw_bool(rng: &mut rand::rngs::StdRng) -> bool {
    rng.gen()
}

/// Relies on rand's `SliceRandom::shuffle`: permutes the elements in place,
/// so the multiset of elements is unchanged; the order is random.
#[verifier::external_body]
fn shuffle_slice(rng: &mut rand::rngs::StdRng, motions: &mut Vec<(isize, isize)>)
    ensures
        final(motions)@.to_multiset() == old(motions)@.to_multiset(),
{
    motions.shuffle(rng);
}

/// The simulation's source of randomness. The generator itself is opaque:
/// no contract constrains the values drawn, so everything proved about the
/// simulation holds for every possible draw. A fixed seed gives the driver a
/// reproducible source.
pub struct SimRng {
    rng: rand::rngs::StdRng,
}

impl SimRng {
    /// A generator whose stream is determined by `seed`.
    pub fn from_seed(seed: u64) -> SimRng {
        SimRng { rng: seed_rng(seed) }
    }

    /// A generator seeded from the operating system.
    pub fn from_entropy() -> SimRng {
        SimRng { rng: entropy_rng() }
    }

    /// One random boolean: the tie-break primitive.
    pub fn coin(&mut self) -> bool {
        draw_bool(&mut self.rng)
    }

    /// Reorders the given relative motions uniformly at random, keeping
    /// exactly the same multiset of elements.
    pub fn shuffle_motions(&mut self, motions: &mut Vec<(isize, isize)>)
        ensures
            final(motions)@.to_multiset() == old(motions)@.to_multiset(),
    {
        shuffle_slice(&mut self.rng, motions)
    }
}

} // verus!
