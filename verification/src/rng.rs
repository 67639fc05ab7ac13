//! The source of randomness behind the matching engine.
//!
//! The engine only ever needs one operation: reordering a vector at
//! random. Nothing is assumed about which order comes out, only that
//! the same elements remain, so every proof downstream holds whatever
//! the generator produces.

use vstd::prelude::*;
use rand::seq::SliceRandom;
use rand::SeedableRng;

verus! {

/// Declares rand's `StdRng` so a value of it can sit in a field; the
/// type stays opaque to the verifier.
#[verifier::external_type_specification]
#[verifier::external_body]
pub struct ExStdRng(rand::rngs::StdRng);

/// A random-number generator owned by the engine, seedable for
/// reproducible runs.
pub struct Shuffler {
    inner: rand::rngs::StdRng,
}

impl Shuffler {
    /// Relies on rand's `SeedableRng::from_entropy`: a fresh generator
    /// seeded from the operating system. Nothing can be promised of it,
    /// and it panics if the operating system's entropy source fails —
    /// an environment condition no caller can rule out in advance.
    #[verifier::external_body]
    pub fn new() -> Shuffler {
        Shuffler { inner: rand::rngs::StdRng::from_entropy() }
    }

    /// Relies on rand's `SeedableRng::seed_from_u64`: a generator whose
    /// draws are fixed by the seed. The contract still promises nothing
    /// of the draws.
    #[verifier::external_body]
    pub fn from_seed(seed: u64) -> Shuffler {
        Shuffler { inner: rand::rngs::StdRng::seed_from_u64(seed) }
    }

    /// Relies on rand's `SliceRandom::shuffle`: a Fisher–Yates pass that
    /// permutes the slice in place, so exactly the old elements remain.
    #[verifier::external_body]
    pub fn shuffle<T>(&mut self, v: &mut Vec<T>)
        ensures
            final(v)@.to_multiset() == old(v)@.to_multiset(),
            final(v)@.len() == old(v)@.len(),
    {
        v.shuffle(&mut self.inner);
    }
}

} // verus!
