//! The opponent's source of moves: a 64-bit linear congruential generator.

use vstd::arithmetic::div_mod::lemma_add_mod_noop;
use vstd::prelude::*;
use vstd::wrapping::u64_specs;

verus! {

/// The multiplier of the generator.
pub const MULTIPLIER: u64 = 6364136223846793005;

/// The increment of the generator.
pub const INCREMENT: u64 = 1442695040888963407;

/// The state that follows `state`: `state * MULTIPLIER + INCREMENT`, reduced
/// modulo 2^64.
pub open spec fn lcg_next(state: u64) -> u64 {
    ((state * MULTIPLIER + INCREMENT) % 0x1_0000_0000_0000_0000) as u64
}

/// The value that a generator in state `state` picks between `min` and `max`,
/// both included: `min` plus the next state reduced modulo the size of the range.
pub open spec fn pick_in_range(state: u64, min: int, max: int) -> int {
    min + (lcg_next(state) as int) % (max - min + 1)
}

/// Multiplying and adding with wraparound computes `lcg_next`.
proof fn lemma_wrapping_step(state: u64)
    ensures
        u64_specs::wrapping_add(u64_specs::wrapping_mul(state, MULTIPLIER), INCREMENT) == lcg_next(
            state,
        ),
{
    let range: int = 0x1_0000_0000_0000_0000;
    let product: int = state * MULTIPLIER;
    assert(product >= 0) by (nonlinear_arith)
        requires
            product == state * MULTIPLIER,
    ;
    lemma_add_mod_noop(product, INCREMENT as int, range);
}

/// A seeded generator. Its view is its current state.
pub struct SimpleRNG {
    state: u64,
}

impl View for SimpleRNG {
    type V = u64;

    closed spec fn view(&self) -> u64 {
        self.state
    }
}

impl SimpleRNG {
    /// A generator whose first state is `seed`.
    pub fn new(seed: u64) -> (rng: SimpleRNG)
        ensures
            rng@ == seed,
    {
        SimpleRNG { state: seed }
    }

    /// Advances the generator by one step and returns the new state.
    pub fn next(&mut self) -> (value: u64)
        ensures
            value == lcg_next(old(self)@),
            final(self)@ == value,
    {
        proof {
            lemma_wrapping_step(self.state);
        }
        self.state = self.state.wrapping_mul(MULTIPLIER).wrapping_add(INCREMENT);
        self.state
    }

    /// Advances the generator by one step and picks a value between `min` and
    /// `max`, both included.
    pub fn rand_range(&mut self, min: usize, max: usize) -> (value: usize)
        requires
            min <= max,
            max - min < usize::MAX,
        ensures
            final(self)@ == lcg_next(old(self)@),
            value == pick_in_range(old(self)@, min as int, max as int),
            min <= value <= max,
    {
        let size: usize = max - min + 1;
        let offset: u64 = self.next() % (size as u64);
        (offset as usize) + min
    }
}

} // verus!
