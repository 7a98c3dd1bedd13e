//! A 32-bit linear congruential generator.
//!
//! The generator exists to shuffle tables reproducibly: the sequence it yields
//! is a function of the seed alone, on every platform.

use vstd::prelude::*;

verus! {

/// Multiplier of the recurrence.
pub const LCG_MULTIPLIER: u32 = 1664525;

/// Increment of the recurrence.
pub const LCG_INCREMENT: u32 = 1013904223;

/// One step of the recurrence: `state * 1664525 + 1013904223`, reduced modulo 2^32.
pub open spec fn lcg_step(state: u32) -> u32 {
    ((LCG_MULTIPLIER as int * state as int + LCG_INCREMENT as int) % 0x1_0000_0000) as u32
}

/// The state after `n` steps from `seed`; for `n >= 1` this is the `n`-th number drawn
/// from a generator that was seeded with `seed`.
pub open spec fn lcg_nth(seed: u32, n: nat) -> u32
    decreases n,
{
    if n == 0 {
        seed
    } else {
        lcg_step(lcg_nth(seed, (n - 1) as nat))
    }
}

/// A linear congruential generator over 32-bit state.
pub struct LCG {
    seed: u32,
    prev_val: u32,
}

impl LCG {
    /// The seed the generator was last seeded with.
    pub closed spec fn seed(&self) -> u32 {
        self.seed
    }

    /// The current state: the seed at first, afterwards the number drawn last.
    pub closed spec fn state(&self) -> u32 {
        self.prev_val
    }

    /// A generator whose first state is `seed`.
    pub fn from_seed(seed: u32) -> (lcg: LCG)
        ensures
            lcg.seed() == seed,
            lcg.state() == seed,
    {
        LCG { seed: seed, prev_val: seed }
    }

    /// Starts the sequence over from `seed`.
    pub fn reseed(&mut self, seed: u32)
        ensures
            final(self).seed() == seed,
            final(self).state() == seed,
    {
        self.seed = seed;
        self.prev_val = seed;
    }

    /// Advances the state by one step and returns the new state.
    pub fn next_u32(&mut self) -> (value: u32)
        ensures
            value == lcg_step(old(self).state()),
            final(self).state() == value,
            final(self).seed() == old(self).seed(),
    {
        let product: u32 = LCG_MULTIPLIER.wrapping_mul(self.prev_val);
        let next: u32 = product.wrapping_add(LCG_INCREMENT);
        proof {
            lemma_wrapping_step(self.prev_val);
        }
        self.prev_val = next;
        next
    }
}

/// Multiplying and adding with wrap-around is the recurrence modulo 2^32.
proof fn lemma_wrapping_step(state: u32)
    ensures
        vstd::wrapping::u32_specs::wrapping_add(
            vstd::wrapping::u32_specs::wrapping_mul(LCG_MULTIPLIER, state),
            LCG_INCREMENT,
        ) == lcg_step(state),
{
    let p: int = LCG_MULTIPLIER as int * state as int;
    let m: int = 0x1_0000_0000;
    assert(0 <= p) by (nonlinear_arith)
        requires
            p == LCG_MULTIPLIER as int * state as int,
    ;
    vstd::arithmetic::div_mod::lemma_add_mod_noop(p, LCG_INCREMENT as int, m);
    vstd::arithmetic::div_mod::lemma_small_mod(LCG_INCREMENT as nat, m as nat);
    let q: int = p % m;
    assert(0 <= q < m);
    if q + LCG_INCREMENT > u32::MAX {
        vstd::arithmetic::div_mod::lemma_mod_sub_multiples_vanish(q + LCG_INCREMENT, m);
        vstd::arithmetic::div_mod::lemma_small_mod((q + LCG_INCREMENT - m) as nat, m as nat);
    } else {
        vstd::arithmetic::div_mod::lemma_small_mod((q + LCG_INCREMENT) as nat, m as nat);
    }
}

/// Multiplying a step's result by 4276115653, the inverse of the multiplier
/// modulo 2^32, gives back the state it came from, shifted by a constant.
proof fn lemma_step_undone(state: u32)
    ensures
        (4276115653 * (lcg_step(state) as int)) % 0x1_0000_0000 == (state + 4276115653
            * 1013904223) % 0x1_0000_0000,
{
    let m: int = 0x1_0000_0000;
    let inverse: int = 4276115653;
    let u: int = 1664525 * state + 1013904223;
    assert(0 <= u) by (nonlinear_arith)
        requires
            u == 1664525 * state + 1013904223,
            0 <= state,
    ;
    vstd::arithmetic::div_mod::lemma_mul_mod_noop_right(inverse, u, m);
    assert(inverse * u == m * (1657219 * state) + (state + inverse * 1013904223))
        by (nonlinear_arith)
        requires
            u == 1664525 * state + 1013904223,
            inverse == 4276115653,
            m == 0x1_0000_0000,
    ;
    vstd::arithmetic::div_mod::lemma_mod_multiples_vanish(
        1657219 * state,
        state + inverse * 1013904223,
        m,
    );
}

/// The step is one-to-one: two different states never lead to the same state,
/// so the sequence of a seed returns to the seed before it repeats anything else.
pub proof fn lemma_step_is_one_to_one(a: u32, b: u32)
    requires
        lcg_step(a) == lcg_step(b),
    ensures
        a == b,
{
    let m: int = 0x1_0000_0000;
    let shift: int = 4276115653int * 1013904223int;
    lemma_step_undone(a);
    lemma_step_undone(b);
    if a > b {
        vstd::arithmetic::div_mod::lemma_mod_equivalence(a + shift, b + shift, m);
        vstd::arithmetic::div_mod::lemma_small_mod((a - b) as nat, m as nat);
    } else if b > a {
        vstd::arithmetic::div_mod::lemma_mod_equivalence(b + shift, a + shift, m);
        vstd::arithmetic::div_mod::lemma_small_mod((b - a) as nat, m as nat);
    }
}

} // verus!
