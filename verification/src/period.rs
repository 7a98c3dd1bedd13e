//! The period of the generator.
//!
//! The multiplier leaves remainder 1 on division by 4 and the increment is
//! odd. For a modulus that is a power of two this is what makes the sequence
//! run through every 32-bit state before it returns to the seed.

use vstd::prelude::*;
use vstd::arithmetic::div_mod::{
    lemma_add_mod_noop, lemma_mod_equivalence, lemma_mod_mod, lemma_mul_mod_noop_right,
    lemma_small_mod, lemma_truncate_middle,
};
use vstd::arithmetic::power2::{lemma2_to64, lemma_pow2_pos, lemma_pow2_unfold, pow2};
use crate::lcgrng::{lcg_nth, lemma_step_is_one_to_one};

verus! {

/// The `n`-th power of the multiplier.
spec fn power(n: nat) -> int
    decreases n,
{
    if n == 0 {
        1
    } else {
        1664525 * power((n - 1) as nat)
    }
}

/// The sum of the first `n` powers of the multiplier, from the zeroth on.
spec fn geometric(n: nat) -> int
    decreases n,
{
    if n == 0 {
        0
    } else {
        1664525 * geometric((n - 1) as nat) + 1
    }
}

/// Every power of the multiplier is positive.
proof fn lemma_power_positive(n: nat)
    ensures
        power(n) > 0,
    decreases n,
{
    if n > 0 {
        lemma_power_positive((n - 1) as nat);
        assert(1664525 * power((n - 1) as nat) > 0) by (nonlinear_arith)
            requires
                power((n - 1) as nat) > 0,
        ;
    }
}

/// No geometric sum is negative.
proof fn lemma_geometric_nonnegative(n: nat)
    ensures
        geometric(n) >= 0,
    decreases n,
{
    if n > 0 {
        lemma_geometric_nonnegative((n - 1) as nat);
        assert(1664525 * geometric((n - 1) as nat) >= 0) by (nonlinear_arith)
            requires
                geometric((n - 1) as nat) >= 0,
        ;
    }
}

/// The state after `n` steps, in closed form.
proof fn lemma_closed_form(seed: u32, n: nat)
    ensures
        lcg_nth(seed, n) as int == (power(n) * seed + 1013904223 * geometric(n)) % 0x1_0000_0000,
    decreases n,
{
    let m: int = 0x1_0000_0000;
    if n == 0 {
        assert(power(0) * seed == seed as int);
        lemma_small_mod(seed as nat, m as nat);
    } else {
        let before = (n - 1) as nat;
        lemma_closed_form(seed, before);
        let v: int = power(before) * seed + 1013904223 * geometric(before);
        lemma_mul_mod_noop_right(1664525, v, m);
        lemma_add_mod_noop(1664525 * (v % m), 1013904223, m);
        lemma_add_mod_noop(1664525 * v, 1013904223, m);
        assert(1664525 * v + 1013904223 == power(n) * seed + 1013904223 * geometric(n))
            by (nonlinear_arith)
            requires
                v == power(before) * seed + 1013904223 * geometric(before),
                power(n) == 1664525 * power(before),
                geometric(n) == 1664525 * geometric(before) + 1,
        ;
    }
}

/// The sum of a geometric series: `(a - 1) * (1 + a + ... + a^(n-1)) == a^n - 1`.
proof fn lemma_geometric_sum(n: nat)
    ensures
        1664524 * geometric(n) == power(n) - 1,
    decreases n,
{
    if n > 0 {
        let before = (n - 1) as nat;
        lemma_geometric_sum(before);
        assert(1664524 * geometric(n) == power(n) - 1) by (nonlinear_arith)
            requires
                1664524 * geometric(before) == power(before) - 1,
                power(n) == 1664525 * power(before),
                geometric(n) == 1664525 * geometric(before) + 1,
        ;
    }
}

/// What each step adds to a state, up to the factor the multiplier shares with
/// the modulus: `(a - 1) * seed + c`. It is odd, because the increment is.
spec fn stride(seed: u32) -> int {
    1664524 * seed + 1013904223
}

/// The sequence is back at the seed after `n` steps exactly when 2^32 divides
/// the product of the geometric sum and the stride.
proof fn lemma_return_condition(seed: u32, n: nat)
    ensures
        lcg_nth(seed, n) == seed <==> (geometric(n) * stride(seed)) % 0x1_0000_0000 == 0,
{
    let m: int = 0x1_0000_0000;
    let x: int = power(n) * seed + 1013904223 * geometric(n);
    lemma_closed_form(seed, n);
    lemma_geometric_sum(n);
    assert(x - seed == geometric(n) * stride(seed)) by (nonlinear_arith)
        requires
            x == power(n) * seed + 1013904223 * geometric(n),
            1664524 * geometric(n) == power(n) - 1,
            stride(seed) == 1664524 * seed + 1013904223,
    ;
    lemma_mod_equivalence(x, seed as int, m);
    lemma_small_mod(seed as nat, m as nat);
}

/// The geometric sum of `n` terms is odd exactly when `n` is: every term is odd.
proof fn lemma_geometric_parity(n: nat)
    ensures
        geometric(n) % 2 == n % 2,
    decreases n,
{
    if n > 0 {
        let before = (n - 1) as nat;
        lemma_geometric_parity(before);
        assert(geometric(n) == 2 * (832262 * geometric(before)) + geometric(before) + 1)
            by (nonlinear_arith)
            requires
                geometric(n) == 1664525 * geometric(before) + 1,
        ;
    }
}

/// Every power of the multiplier leaves remainder 1 on division by 4, as the multiplier does.
proof fn lemma_power_mod_4(n: nat)
    ensures
        power(n) % 4 == 1,
    decreases n,
{
    if n > 0 {
        let before = (n - 1) as nat;
        lemma_power_mod_4(before);
        assert(power(n) == 4 * (416131 * power(before)) + power(before)) by (nonlinear_arith)
            requires
                power(n) == 1664525 * power(before),
        ;
    }
}

/// A sum of `m + n` terms is the sum of the first `n` and, shifted by `n`
/// powers, the sum of `m` more.
proof fn lemma_geometric_split(m: nat, n: nat)
    ensures
        geometric(m + n) == geometric(n) + power(n) * geometric(m),
    decreases n,
{
    if n == 0 {
        assert(power(0) * geometric(m) == geometric(m));
    } else {
        let before = (n - 1) as nat;
        lemma_geometric_split(m, before);
        assert(geometric(m + n) == 1664525 * geometric((m + before) as nat) + 1);
        assert(geometric(m + n) == geometric(n) + power(n) * geometric(m)) by (nonlinear_arith)
            requires
                geometric(m + n) == 1664525 * geometric((m + before) as nat) + 1,
                geometric((m + before) as nat) == geometric(before) + power(before) * geometric(m),
                geometric(n) == 1664525 * geometric(before) + 1,
                power(n) == 1664525 * power(before),
        ;
    }
}

/// Doubling the number of terms multiplies the sum by twice an odd number.
proof fn lemma_geometric_double(m: nat) -> (odd: int)
    ensures
        odd > 0,
        odd % 2 == 1,
        geometric(2 * m) == 2 * (geometric(m) * odd),
{
    lemma_geometric_split(m, m);
    lemma_power_mod_4(m);
    lemma_power_positive(m);
    let odd: int = (power(m) + 1) / 2;
    assert(geometric(2 * m) == 2 * (geometric(m) * odd)) by (nonlinear_arith)
        requires
            geometric((m + m) as nat) == geometric(m) + power(m) * geometric(m),
            2 * odd == power(m) + 1,
    {
        assert(2 * m == m + m);
    }
    odd
}

/// A product with an odd number is even only if the other factor is.
proof fn lemma_odd_factor_keeps_parity(g: int, odd: int)
    requires
        odd % 2 == 1,
    ensures
        (g * odd) % 2 == g % 2,
{
    let h = g / 2;
    let r = g % 2;
    let k = odd / 2;
    assert(g * odd == 2 * (2 * h * k + h + r * k) + r) by (nonlinear_arith)
        requires
            g == 2 * h + r,
            odd == 2 * k + 1,
    ;
}

/// Half of an even number is divisible by 2^k exactly when the number is divisible by 2^(k+1).
proof fn lemma_halve(half: int, k: nat)
    requires
        half >= 0,
    ensures
        (2 * half) % (pow2(k + 1) as int) == 0 <==> half % (pow2(k) as int) == 0,
{
    lemma_pow2_pos(k);
    lemma_pow2_unfold(k + 1);
    lemma_truncate_middle(half, 2, pow2(k) as int);
}

/// An odd factor takes no part in divisibility by a power of two.
proof fn lemma_odd_factor_cancels(g: int, odd: int, k: nat)
    requires
        g >= 0,
        odd > 0,
        odd % 2 == 1,
    ensures
        (g * odd) % (pow2(k) as int) == 0 <==> g % (pow2(k) as int) == 0,
    decreases k,
{
    if k == 0 {
        lemma2_to64();
    } else {
        let q = pow2((k - 1) as nat) as int;
        lemma_pow2_pos((k - 1) as nat);
        lemma_pow2_unfold(k);
        lemma_odd_factor_keeps_parity(g, odd);
        lemma_mod_mod(g * odd, 2, q);
        lemma_mod_mod(g, 2, q);
        if g % 2 == 0 {
            let half = g / 2;
            assert(g * odd == 2 * (half * odd)) by (nonlinear_arith)
                requires
                    g == 2 * half,
            ;
            assert(half * odd >= 0) by (nonlinear_arith)
                requires
                    half >= 0,
                    odd > 0,
            ;
            lemma_halve(half * odd, (k - 1) as nat);
            lemma_halve(half, (k - 1) as nat);
            lemma_odd_factor_cancels(half, odd, (k - 1) as nat);
        }
    }
}

/// 2^k divides the geometric sum of `n` terms exactly when it divides `n`.
proof fn lemma_geometric_divisibility(n: nat, k: nat)
    ensures
        geometric(n) % (pow2(k) as int) == 0 <==> n % pow2(k) == 0,
    decreases k,
{
    if k == 0 {
        lemma2_to64();
    } else {
        let q = pow2((k - 1) as nat) as int;
        lemma_pow2_pos((k - 1) as nat);
        lemma_pow2_unfold(k);
        lemma_geometric_parity(n);
        lemma_mod_mod(geometric(n), 2, q);
        lemma_mod_mod(n as int, 2, q);
        if n % 2 == 0 {
            let m = n / 2;
            let odd = lemma_geometric_double(m);
            lemma_geometric_nonnegative(m);
            assert(geometric(m) * odd >= 0) by (nonlinear_arith)
                requires
                    geometric(m) >= 0,
                    odd > 0,
            ;
            lemma_halve(geometric(m) * odd, (k - 1) as nat);
            lemma_odd_factor_cancels(geometric(m), odd, (k - 1) as nat);
            lemma_geometric_divisibility(m, (k - 1) as nat);
            lemma_halve(m as int, (k - 1) as nat);
        }
    }
}

/// The generator has full period: from any seed, the sequence is back at the
/// seed after `n` steps exactly when `n` is a multiple of 2^32.
pub proof fn lemma_full_period(seed: u32, n: nat)
    ensures
        lcg_nth(seed, n) == seed <==> n % 0x1_0000_0000 == 0,
{
    lemma2_to64();
    lemma_return_condition(seed, n);
    lemma_geometric_nonnegative(n);
    assert(stride(seed) % 2 == 1) by {
        assert(stride(seed) == 2 * (832262 * seed + 506952111) + 1) by (nonlinear_arith)
            requires
                stride(seed) == 1664524 * seed + 1013904223,
        ;
    }
    assert(stride(seed) > 0) by (nonlinear_arith)
        requires
            stride(seed) == 1664524 * seed + 1013904223,
            seed >= 0,
    ;
    lemma_odd_factor_cancels(geometric(n), stride(seed), 32);
    lemma_geometric_divisibility(n, 32);
}

/// Within one period no state occurs twice: the sequence visits each of the
/// 2^32 states once before it repeats.
pub proof fn lemma_states_differ_within_period(seed: u32, i: nat, j: nat)
    requires
        i < j < i + 0x1_0000_0000,
    ensures
        lcg_nth(seed, i) != lcg_nth(seed, j),
    decreases i,
{
    if i == 0 {
        lemma_full_period(seed, j);
    } else {
        lemma_states_differ_within_period(seed, (i - 1) as nat, (j - 1) as nat);
        if lcg_nth(seed, i) == lcg_nth(seed, j) {
            lemma_step_is_one_to_one(
                lcg_nth(seed, (i - 1) as nat),
                lcg_nth(seed, (j - 1) as nat),
            );
        }
    }
}

} // verus!
