//! An explicit, seedable source of randomness.
//!
//! Every perturbation in the crate draws from a caller-supplied source, so a
//! generated shape is a pure function of its parameters and the seed, and any
//! result can be replayed exactly.

use crate::fixed::FX_ONE;
use vstd::arithmetic::div_mod::lemma_mod_division_less_than_divisor;
use vstd::prelude::*;

verus! {

/// Multiplier of the linear congruential step.
pub const RNG_MUL: u64 = 6_364_136_223_846_793_005;

/// Increment of the linear congruential step.
pub const RNG_INC: u64 = 1_442_695_040_888_963_407;

/// The successor state of the linear congruential generator.
#[verifier::opaque]
pub open spec fn next_state_v(s: u64) -> u64 {
    (((s as int) * (RNG_MUL as int) + (RNG_INC as int)) % 0x1_0000_0000_0000_0000int) as u64
}

/// The state reached after `n` steps.
#[verifier::opaque]
pub open spec fn nth_state_v(s: u64, n: nat) -> u64
    decreases n,
{
    if n == 0 {
        s
    } else {
        next_state_v(nth_state_v(s, (n - 1) as nat))
    }
}

/// Stepping once more is one step from the state already reached.
pub proof fn lemma_nth_state_succ(s: u64, n: nat)
    ensures
        nth_state_v(s, n + 1) == next_state_v(nth_state_v(s, n)),
        nth_state_v(s, 0) == s,
{
    reveal(nth_state_v);
}

/// Stepping `m + n` times is stepping `m` times, then `n` times.
pub proof fn lemma_nth_state_add(s: u64, m: nat, n: nat)
    ensures
        nth_state_v(s, m + n) == nth_state_v(nth_state_v(s, m), n),
    decreases n,
{
    reveal(nth_state_v);
    if n > 0 {
        lemma_nth_state_add(s, m, (n - 1) as nat);
    }
}

/// The second state is reachable from the first by some number of steps.
pub open spec fn reaches_v(s0: u64, s1: u64) -> bool {
    exists|k: nat| s1 == nth_state_v(s0, k)
}

/// Reachability is reflexive.
pub proof fn lemma_reaches_refl(s: u64)
    ensures
        reaches_v(s, s),
{
    reveal(nth_state_v);
    assert(s == nth_state_v(s, 0));
}

/// Reachability is transitive.
pub proof fn lemma_reaches_trans(a: u64, b: u64, c: u64)
    requires
        reaches_v(a, b),
        reaches_v(b, c),
    ensures
        reaches_v(a, c),
{
    let m = choose|m: nat| b == nth_state_v(a, m);
    let n = choose|n: nat| c == nth_state_v(b, n);
    lemma_nth_state_add(a, m, n);
    assert(c == nth_state_v(a, m + n));
}

/// A state reached by a known number of steps is reachable.
pub proof fn lemma_reaches_nth(s: u64, n: nat)
    ensures
        reaches_v(s, nth_state_v(s, n)),
{
}

/// One step of the generator reaches the successor state.
pub proof fn lemma_reaches_step(s: u64)
    ensures
        reaches_v(s, next_state_v(s)),
{
    reveal(nth_state_v);
    assert(nth_state_v(s, 0) == s);
    lemma_nth_state_succ(s, 0);
    assert(next_state_v(s) == nth_state_v(s, 1));
}

/// The fixed-point sample in `[0, FX_ONE)` that a state yields: bits 40 and
/// up, reduced to one fixed-point unit.
#[verifier::opaque]
pub open spec fn unit_v(s: u64) -> int {
    ((s as int) / 0x100_0000_0000int) % (FX_ONE as int)
}

/// An explicit, seedable random source: a 64-bit linear congruential
/// generator.
pub struct RandomSource {
    pub state: u64,
}

impl RandomSource {
    /// A source that will replay the sample stream of `seed`.
    pub fn new(seed: u64) -> (r: RandomSource)
        ensures
            r.state == seed,
    {
        RandomSource { state: seed }
    }

    /// Advances one step and returns a fixed-point sample in `[0, FX_ONE)`.
    pub fn next_unit(&mut self) -> (u: i64)
        ensures
            final(self).state == next_state_v(old(self).state),
            u as int == unit_v(final(self).state),
            0 <= u < FX_ONE,
    {
        proof {
            reveal(next_state_v);
            reveal(unit_v);
            assert((self.state as int) * (RNG_MUL as int) + (RNG_INC as int) <= u128::MAX as int)
                by (nonlinear_arith)
                requires
                    0 <= (self.state as int) && (self.state as int) <= 0xffff_ffff_ffff_ffffint,
            ;
        }
        let wide: u128 = (self.state as u128) * (RNG_MUL as u128) + (RNG_INC as u128);
        proof {
            lemma_mod_division_less_than_divisor(wide as int, 0x1_0000_0000_0000_0000int);
        }
        let ns: u64 = (wide % 0x1_0000_0000_0000_0000u128) as u64;
        self.state = ns;
        proof {
            lemma_mod_division_less_than_divisor(
                (ns as int) / 0x100_0000_0000int,
                FX_ONE as int,
            );
            vstd::arithmetic::div_mod::lemma_div_pos_is_pos(ns as int, 0x100_0000_0000int);
        }
        let u: u64 = (ns / 0x100_0000_0000) % (FX_ONE as u64);
        u as i64
    }
}

} // verus!
