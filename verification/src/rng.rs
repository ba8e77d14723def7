//! Sources of uniform random integers.
//!
//! Evaluation needs one capability: an integer drawn uniformly from
//! `[1, sides]` for a die with at least two sides. [`RollSource`] states
//! that capability; [`ThreadSource`] fulfils it from the thread-local
//! generator of the `rand` crate, and [`SeededSource`] is a small
//! deterministic generator for environments without an ambient one and
//! for reproducible runs.
use vstd::prelude::*;

verus! {

/// A source of uniform random integers in a closed range.
///
/// Implementations promise only the range of each draw; which value
/// comes out is the implementation's business.
pub trait RollSource {
    /// Draw one die roll: an integer in `[1, sides]`.
    fn sample(&mut self, sides: u64) -> (r: u64)
        requires
            sides >= 2,
        ensures
            1 <= r <= sides,
    ;
}

/// A deterministic source: a 64-bit linear congruential generator.
///
/// Two sources built from the same seed yield the same draws in the same
/// order; the draws satisfy nothing beyond the range promised by
/// [`RollSource`].
pub struct SeededSource {
    state: u64,
}

impl SeededSource {
    /// A source whose draws are a function of `seed` alone.
    pub fn from_seed(seed: u64) -> SeededSource {
        SeededSource { state: seed }
    }

    /// Advance the generator one step.
    fn step(&mut self) -> (r: u64) {
        // Constants of Knuth's MMIX multiplicative generator.
        let m: u128 = 6364136223846793005u128;
        let c: u128 = 1442695040888963407u128;
        let next: u128 = (m * (self.state as u128) + c) % 0x1_0000_0000_0000_0000u128;
        self.state = next as u64;
        // The high bits have the longer period.
        self.state >> 33
    }
}

impl RollSource for SeededSource {
    fn sample(&mut self, sides: u64) -> (r: u64) {
        let x = self.step();
        1 + x % sides
    }
}

/// The thread-local generator of the `rand` crate.
pub struct ThreadSource {
    rng: rand::rngs::ThreadRng,
}

impl ThreadSource {
    /// A handle to the thread-local generator.
    pub fn new() -> ThreadSource {
        ThreadSource { rng: thread_rng_handle() }
    }
}

impl RollSource for ThreadSource {
    fn sample(&mut self, sides: u64) -> (r: u64) {
        thread_rng_range(&mut self.rng, sides)
    }
}

#[verifier::external_type_specification]
#[verifier::external_body]
pub struct ExThreadRng(rand::rngs::ThreadRng);

/// Relies on rand::rng: a handle to the thread-local generator.
#[verifier::external_body]
fn thread_rng_handle() -> rand::rngs::ThreadRng {
    rand::rng()
}

/// Relies on rand's RngExt::random_range: over the non-empty range
/// `1..=sides` it returns a uniformly distributed integer of that range.
#[verifier::external_body]
fn thread_rng_range(rng: &mut rand::rngs::ThreadRng, sides: u64) -> (r: u64)
    requires
        sides >= 2,
    ensures
        1 <= r <= sides,
{
    rng.random_range(1..=sides)
}

} // verus!

use rand::RngExt;
