//! Deterministic pseudo-random number generator (SplitMix64).

use vstd::prelude::*;

verus! {

/// Increment added to the state on every step.
pub const GOLDEN_GAMMA: u64 = 0x9E3779B97F4A7C15;

/// First multiplier of the Stafford variant 13 mixing function.
pub const MIX_MULTIPLIER_1: u64 = 0xBF58476D1CE4E5B9;

/// Second multiplier of the Stafford variant 13 mixing function.
pub const MIX_MULTIPLIER_2: u64 = 0x94D049BB133111EB;

/// Modulus of `u64` arithmetic.
pub open spec fn u64_modulus() -> int {
    0x1_0000_0000_0000_0000
}

/// The state after one step.
pub open spec fn advance(state: u64) -> u64 {
    state.wrapping_add(GOLDEN_GAMMA)
}

/// Stafford variant 13 mixing function: the shifts (30, 27, 31) and the
/// multipliers form one 64-bit mixing construction.
pub open spec fn mix(state: u64) -> u64 {
    let a = (state ^ (state >> 30u64)).wrapping_mul(MIX_MULTIPLIER_1);
    let b = (a ^ (a >> 27u64)).wrapping_mul(MIX_MULTIPLIER_2);
    b ^ (b >> 31u64)
}

/// State of a generator seeded with `seed` after `k` steps.
pub open spec fn state_after(seed: u64, k: nat) -> u64
    decreases k,
{
    if k == 0 {
        seed
    } else {
        advance(state_after(seed, (k - 1) as nat))
    }
}

/// The `k`-th value (counting from 0) returned by `next_u64` of a
/// generator seeded with `seed`.
pub open spec fn output_at(seed: u64, k: nat) -> u64 {
    mix(state_after(seed, k + 1))
}

/// Deterministic pseudo-random number generator (SplitMix64).
#[derive(Debug)]
pub struct Rng {
    state: u64,
}

impl View for Rng {
    type V = u64;

    /// The current state.
    closed spec fn view(&self) -> u64 {
        self.state
    }
}

impl Rng {
    /// A generator whose state is `seed`.
    pub fn new(seed: u64) -> (r: Self)
        ensures
            r@ == seed,
    {
        Rng { state: seed }
    }

    /// Advances the state by the golden gamma and returns the mixed state.
    pub fn next_u64(&mut self) -> (r: u64)
        ensures
            final(self)@ == advance(old(self)@),
            r == mix(final(self)@),
    {
        self.state = self.state.wrapping_add(GOLDEN_GAMMA);
        let mut random = self.state;
        random = (random ^ (random >> 30)).wrapping_mul(MIX_MULTIPLIER_1);
        random = (random ^ (random >> 27)).wrapping_mul(MIX_MULTIPLIER_2);
        random ^= random >> 31;
        random
    }

    /// The 53 high bits of the next `next_u64` value: the numerator of the
    /// next value in `[0, 1)`, whose denominator is `2^53`.
    pub fn next_unit_bits(&mut self) -> (r: u64)
        ensures
            final(self)@ == advance(old(self)@),
            r == mix(final(self)@) >> 11u64,
            r < 0x20_0000_0000_0000,
    {
        let random = self.next_u64();
        let bits = random >> 11;
        assert(random >> 11u64 < 0x20_0000_0000_0000u64) by (bit_vector);
        bits
    }
}

/// The state after `k` steps is `seed + k * GOLDEN_GAMMA` modulo `2^64`.
pub proof fn lemma_state_after(seed: u64, k: nat)
    ensures
        state_after(seed, k) as int == (seed + k * GOLDEN_GAMMA) % u64_modulus(),
    decreases k,
{
    let m = u64_modulus();
    if k == 0 {
        vstd::arithmetic::div_mod::lemma_small_mod(seed as nat, m as nat);
    } else {
        let k1 = (k - 1) as nat;
        lemma_state_after(seed, k1);
        let prev = state_after(seed, k1);
        let x = seed + k1 * GOLDEN_GAMMA;
        assert(state_after(seed, k) as int == (prev + GOLDEN_GAMMA) % m) by {
            if prev + GOLDEN_GAMMA > u64::MAX {
                vstd::arithmetic::div_mod::lemma_mod_add_multiples_vanish(prev + GOLDEN_GAMMA - m, m);
                vstd::arithmetic::div_mod::lemma_small_mod((prev + GOLDEN_GAMMA - m) as nat, m as nat);
            } else {
                vstd::arithmetic::div_mod::lemma_small_mod((prev + GOLDEN_GAMMA) as nat, m as nat);
            }
        }
        vstd::arithmetic::div_mod::lemma_add_mod_noop(x, GOLDEN_GAMMA as int, m);
        vstd::arithmetic::div_mod::lemma_small_mod(GOLDEN_GAMMA as nat, m as nat);
        assert(x + GOLDEN_GAMMA == seed + k * GOLDEN_GAMMA) by (nonlinear_arith)
            requires
                x == seed + k1 * GOLDEN_GAMMA,
                k1 == k - 1,
        ;
    }
}

/// The sequence of a generator depends only on its seed: the `k`-th value
/// is the mixed value of `seed + (k + 1) * GOLDEN_GAMMA` modulo `2^64`.
pub proof fn lemma_output_at(seed: u64, k: nat)
    ensures
        output_at(seed, k) == mix(((seed + (k + 1) * GOLDEN_GAMMA) % u64_modulus()) as u64),
{
    lemma_state_after(seed, k + 1);
}

} // verus!
