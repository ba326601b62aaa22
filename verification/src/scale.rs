//! Resolution arithmetic on the binary logarithmic scale.
//!
//! Resolutions are compared by the number of bits they occupy rather than by
//! a floating-point logarithm, which is exact at the power-of-two boundaries.

use vstd::arithmetic::power2::{
    lemma2_to64,
    lemma2_to64_rest,
    lemma_pow2_pos,
    lemma_pow2_strictly_increases,
    lemma_pow2_unfold,
    pow2,
};
use vstd::bits::lemma_u32_shr_is_div;
use vstd::prelude::*;
use vstd::std_specs::bits::{axiom_u32_leading_zeros, u32_leading_zeros};

verus! {

/// The largest resolution whose size class still fits a `u32`.
pub const MAX_DIMENSION: u32 = 0x8000_0000;

/// The number of bits needed to write `n`: 0 for 0, else `floor(log2(n)) + 1`.
pub open spec fn bit_length(n: nat) -> nat
    decreases n,
{
    if n == 0 {
        0
    } else {
        1 + bit_length(n / 2)
    }
}

/// The distance between two resolutions on the binary logarithmic scale.
pub open spec fn log_distance(a: u32, b: u32) -> nat {
    let x = bit_length(a as nat);
    let y = bit_length(b as nat);
    if x <= y {
        (y - x) as nat
    } else {
        (x - y) as nat
    }
}

/// The smallest power of two that is at least `m`.
pub open spec fn next_power_of_two(m: nat) -> nat
    decreases m,
{
    if m <= 1 {
        1
    } else {
        2 * next_power_of_two((m + 1) / 2)
    }
}

/// A positive `n` lies between the two powers of two that its bit length names.
pub proof fn lemma_bit_length_bounds(n: nat)
    requires
        n > 0,
    ensures
        bit_length(n) >= 1,
        pow2((bit_length(n) - 1) as nat) <= n < pow2(bit_length(n)),
    decreases n,
{
    lemma2_to64();
    if n == 1 {
        assert(bit_length(1) == 1 + bit_length(0));
    } else {
        lemma_bit_length_bounds(n / 2);
        let l = bit_length(n / 2);
        assert(bit_length(n) == 1 + l);
        lemma_pow2_unfold(l);
        lemma_pow2_unfold(l + 1);
    }
}

/// Only one exponent brackets a number between consecutive powers of two.
pub proof fn lemma_bit_length_unique(n: nat, l: nat)
    requires
        l >= 1,
        pow2((l - 1) as nat) <= n < pow2(l),
    ensures
        bit_length(n) == l,
{
    lemma_pow2_pos((l - 1) as nat);
    lemma_bit_length_bounds(n);
    let b = bit_length(n);
    if b < l {
        if b < l - 1 {
            lemma_pow2_strictly_increases(b, (l - 1) as nat);
        }
    } else if b > l {
        if l < b - 1 {
            lemma_pow2_strictly_increases(l, (b - 1) as nat);
        }
    }
}

/// The leading zeros of a `u32` and its bit length add up to 32.
pub proof fn lemma_leading_zeros(n: u32)
    ensures
        u32_leading_zeros(n) == 32 - bit_length(n as nat),
{
    axiom_u32_leading_zeros(n);
    let z: u32 = u32_leading_zeros(n);
    if n != 0 {
        let s: u32 = (31 - z) as u32;
        let d = pow2(s as nat);
        lemma_pow2_pos(s as nat);
        lemma_u32_shr_is_div(n, s);
        assert(n >> s != 0) by (bit_vector)
            requires
                (n >> s) & 1u32 != 0u32,
        ;
        assert(n >= d) by (nonlinear_arith)
            requires
                (n as nat) / d != 0,
                d > 0,
        ;
        if z == 0 {
            lemma2_to64();
            assert(n < pow2(32));
        } else {
            let t: u32 = (32 - z) as u32;
            let e = pow2(t as nat);
            lemma_pow2_pos(t as nat);
            lemma_u32_shr_is_div(n, t);
            assert(n < e) by (nonlinear_arith)
                requires
                    (n as nat) / e == 0,
                    e > 0,
            ;
        }
        lemma_bit_length_unique(n as nat, (32 - z) as nat);
    }
}

/// `next_power_of_two(m)` is a power of two, is at least `m`, and no smaller
/// power of two is: half of it is below `m` unless it is 1.
pub proof fn lemma_next_power_of_two(m: nat)
    ensures
        exists|k: nat| next_power_of_two(m) == #[trigger] pow2(k),
        m <= next_power_of_two(m),
        next_power_of_two(m) == 1 || next_power_of_two(m) < 2 * m,
        m <= 1 ==> next_power_of_two(m) == 1,
    decreases m,
{
    lemma2_to64();
    if m <= 1 {
        assert(next_power_of_two(m) == pow2(0));
    } else {
        let h = ((m + 1) / 2) as nat;
        lemma_next_power_of_two(h);
        let k = choose|k: nat| next_power_of_two(h) == #[trigger] pow2(k);
        lemma_pow2_unfold(k + 1);
        assert(next_power_of_two(m) == pow2(k + 1));
    }
}

/// The smallest power of two that is at least `m`, for `m` up to `2^31`.
pub fn round_up_to_power_of_two(m: u32) -> (r: u32)
    requires
        m <= MAX_DIMENSION,
    ensures
        r == next_power_of_two(m as nat),
        r <= MAX_DIMENSION,
{
    let mut r: u32 = 1;
    proof {
        lemma2_to64();
        lemma_next_power_of_two(m as nat);
    }
    let ghost mut k: nat = 0;
    while r < m
        invariant
            m <= MAX_DIMENSION,
            r == pow2(k),
            k <= 31,
            r == 1 || r < 2 * m,
        decreases 32 - k,
    {
        proof {
            lemma2_to64();
            lemma2_to64_rest();
            lemma_pow2_unfold(k + 1);
            if k >= 31 {
                assert(r == 0x8000_0000);
            }
            k = k + 1;
        }
        r = r * 2;
    }
    proof {
        lemma2_to64();
        lemma2_to64_rest();
        lemma_smallest_power(m as nat, k, r as nat);
    }
    r
}

/// A power of two that is at least `m` and whose half is below `m` is
/// `next_power_of_two(m)`.
proof fn lemma_smallest_power(m: nat, k: nat, r: nat)
    requires
        r == pow2(k),
        m <= r,
        r == 1 || r < 2 * m,
    ensures
        r == next_power_of_two(m),
    decreases k,
{
    lemma2_to64();
    if m <= 1 {
        if r != 1 {
            assert(r < 2);
            lemma_pow2_pos(k);
        }
    } else {
        assert(r >= 2);
        assert(k > 0);
        lemma_pow2_unfold(k);
        let h = ((m + 1) / 2) as nat;
        let half = pow2((k - 1) as nat);
        assert(r == 2 * half);
        assert(h <= half);
        if half != 1 {
            // half is even, so half < m gives half <= m - 1, hence half / 2 < h
            lemma_pow2_unfold((k - 1) as nat);
            assert(half < 2 * h);
        }
        lemma_smallest_power(h, (k - 1) as nat, half);
    }
}

} // verus!
