//! Sources of random integers for mine placement.

use vstd::prelude::*;

verus! {

/// A source of uniform random 32-bit integers. Board generation draws
/// coordinates from such a source instead of binding to a global generator,
/// so callers can pass a seeded or scripted source and reproduce a board.
pub trait RandomSource {
    /// The next 32-bit draw from the source.
    fn next_u32(&mut self) -> u32;
}

/// A deterministic source that cycles through a fixed list of draws.
pub struct ScriptedSource {
    pub draws: Vec<u32>,
    pub pos: usize,
}

impl ScriptedSource {
    /// A source that replays `draws` from the start, cycling at the end.
    pub fn new(draws: Vec<u32>) -> (s: ScriptedSource)
        ensures
            s.draws == draws,
            s.pos == 0usize,
    {
        ScriptedSource { draws, pos: 0 }
    }
}

impl RandomSource for ScriptedSource {
    fn next_u32(&mut self) -> u32 {
        if self.draws.len() == 0 {
            return 0;
        }
        let v = if self.pos < self.draws.len() {
            self.draws[self.pos]
        } else {
            self.draws[0]
        };
        self.pos = if self.pos < self.draws.len() - 1 {
            self.pos + 1
        } else {
            0
        };
        v
    }
}

#[verifier::external_type_specification]
#[verifier::external_body]
pub struct ExSmallRng(rand::rngs::SmallRng);

/// Relies on rand's `random`: one value drawn from the thread-local
/// generator; nothing is promised of it.
pub assume_specification<T>[ rand::random::<T> ]() -> (r: T)
    where
        rand::distributions::Standard: rand::distributions::Distribution<T>,
;

/// Relies on rand's `SeedableRng::seed_from_u64` for `SmallRng`: builds a
/// generator from a 64-bit seed; it accepts every seed and never fails.
#[verifier::external_body]
fn small_rng_from_seed(seed: u64) -> rand::rngs::SmallRng {
    <rand::rngs::SmallRng as rand::SeedableRng>::seed_from_u64(seed)
}

/// Relies on rand's `RngCore::next_u32` for `SmallRng`: the generator's next
/// 32-bit output; nothing is promised of its value.
#[verifier::external_body]
fn small_rng_next(rng: &mut rand::rngs::SmallRng) -> u32 {
    rand::RngCore::next_u32(rng)
}

/// A small, fast pseudorandom source, the kind the chat command draws its
/// boards from.
pub struct SmallRngSource {
    rng: rand::rngs::SmallRng,
}

impl SmallRngSource {
    /// A source seeded from a fixed 64-bit value.
    pub fn from_seed(seed: u64) -> SmallRngSource {
        SmallRngSource { rng: small_rng_from_seed(seed) }
    }

    /// A source seeded from the thread-local generator, fresh on each call.
    pub fn from_entropy() -> SmallRngSource {
        SmallRngSource::from_seed(rand::random::<u64>())
    }
}

impl RandomSource for SmallRngSource {
    fn next_u32(&mut self) -> u32 {
        small_rng_next(&mut self.rng)
    }
}

} // verus!
