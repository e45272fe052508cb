//! Fixed-point arithmetic helpers shared by the whole engine.
//!
//! A quantity of one whole unit (one beat, one second, one pixel) is stored
//! as `MICRO` micro-units. Division is rounded to the nearest integer with
//! ties away from zero, matching the rounding the engine's rules call for.

use vstd::prelude::*;

verus! {

use vstd::arithmetic::div_mod::{
    lemma_div_is_ordered, lemma_div_pos_is_pos, lemma_fundamental_div_mod_converse_div,
};

/// One whole unit in the micro fixed-point scale.
pub const MICRO: i64 = 1_000_000;

/// One whole unit in the milli fixed-point scale (used for BPM).
pub const MILLI: i64 = 1_000;

/// `n / d` rounded to the nearest integer, ties away from zero. `d` must be
/// positive.
pub open spec fn round_div_spec(n: int, d: int) -> int {
    if n >= 0 {
        (2 * n + d) / (2 * d)
    } else {
        -((2 * (-n) + d) / (2 * d))
    }
}

/// The rounded quotient of a nonnegative `n` is nonnegative.
pub proof fn lemma_round_div_nonneg(n: int, d: int)
    requires
        d > 0,
        n >= 0,
    ensures
        round_div_spec(n, d) >= 0,
{
    lemma_div_pos_is_pos(2 * n + d, 2 * d);
}

/// If `n <= k * d` then the rounded quotient of `n` by `d` is at most `k`.
pub proof fn lemma_round_div_le(n: int, d: int, k: int)
    requires
        d > 0,
        0 <= n,
        n <= k * d,
    ensures
        round_div_spec(n, d) <= k,
{
    assert(2 * n + d <= k * (2 * d) + d) by (nonlinear_arith)
        requires
            n <= k * d,
            d > 0,
    ;
    lemma_div_is_ordered(2 * n + d, k * (2 * d) + d, 2 * d);
    lemma_fundamental_div_mod_converse_div(k * (2 * d) + d, 2 * d, k, d);
}

/// If `n >= k * d` then the rounded quotient of `n` by `d` is at least `k`.
pub proof fn lemma_round_div_ge(n: int, d: int, k: int)
    requires
        d > 0,
        0 <= k * d,
        k * d <= n,
    ensures
        round_div_spec(n, d) >= k,
{
    assert(k * (2 * d) <= 2 * n) by (nonlinear_arith)
        requires
            k * d <= n,
            d > 0,
    ;
    lemma_div_is_ordered(k * (2 * d), 2 * n + d, 2 * d);
    lemma_fundamental_div_mod_converse_div(k * (2 * d), 2 * d, k, 0);
    lemma_div_pos_is_pos(2 * n + d, 2 * d);
}

/// Rounded division is monotone in the numerator.
pub proof fn lemma_round_div_monotone(n1: int, n2: int, d: int)
    requires
        d > 0,
        0 <= n1 <= n2,
    ensures
        round_div_spec(n1, d) <= round_div_spec(n2, d),
{
    lemma_div_is_ordered(2 * n1 + d, 2 * n2 + d, 2 * d);
}

/// An exact multiple divides back out exactly: `round_div(k * d, d) == k`.
pub proof fn lemma_round_div_exact(d: int, k: int)
    requires
        d > 0,
        k >= 0,
    ensures
        round_div_spec(k * d, d) == k,
{
    assert(k * d >= 0) by (nonlinear_arith)
        requires
            d > 0,
            k >= 0,
    ;
    lemma_round_div_le(k * d, d, k);
    lemma_round_div_ge(k * d, d, k);
}

/// Rounded division on `u64`, nearest integer with ties away from zero.
pub fn round_div_u64(n: u64, d: u64) -> (r: u64)
    requires
        0 < d <= 0x7fff_ffff_ffff_ffff,
        2 * n + d <= u64::MAX,
    ensures
        r == round_div_spec(n as int, d as int),
        r <= n,
{
    proof {
        lemma_div_pos_is_pos(2 * (n as int) + (d as int), 2 * (d as int));
        assert((n as int) <= (n as int) * (d as int)) by (nonlinear_arith)
            requires
                d >= 1,
                n >= 0,
        ;
        lemma_round_div_le(n as int, d as int, n as int);
    }
    (2 * n + d) / (2 * d)
}

/// Rounded division on `i128` (numerator may be negative; `d` positive),
/// nearest integer with ties away from zero.
pub fn round_div_i128(n: i128, d: i128) -> (r: i128)
    requires
        0 < d < 0x2000_0000_0000_0000_0000_0000_0000_0000,
        -0x2000_0000_0000_0000_0000_0000_0000_0000 < n
            < 0x2000_0000_0000_0000_0000_0000_0000_0000,
    ensures
        r == round_div_spec(n as int, d as int),
        n >= 0 ==> 0 <= r <= n,
        n < 0 ==> n <= r <= 0,
{
    let du: u128 = d as u128;
    if n >= 0 {
        let m: u128 = n as u128;
        let q: u128 = (2 * m + du) / (2 * du);
        proof {
            lemma_div_pos_is_pos(2 * (m as int) + (du as int), 2 * (du as int));
            assert((m as int) <= (m as int) * (du as int)) by (nonlinear_arith)
                requires
                    du >= 1,
                    m >= 0,
            ;
            lemma_round_div_le(m as int, du as int, m as int);
        }
        q as i128
    } else {
        let m: u128 = (-n) as u128;
        let q: u128 = (2 * m + du) / (2 * du);
        proof {
            lemma_div_pos_is_pos(2 * (m as int) + (du as int), 2 * (du as int));
            assert((m as int) <= (m as int) * (du as int)) by (nonlinear_arith)
                requires
                    du >= 1,
                    m >= 0,
            ;
            lemma_round_div_le(m as int, du as int, m as int);
        }
        -(q as i128)
    }
}

/// `r` is the integer square root of `n`: the largest integer whose square
/// does not exceed `n`.
pub open spec fn is_isqrt(n: int, r: int) -> bool {
    &&& r >= 0
    &&& r * r <= n
    &&& (r + 1) * (r + 1) > n
}

/// Integer square root by bisection.
pub fn isqrt_u128(n: u128) -> (r: u128)
    ensures
        is_isqrt(n as int, r as int),
{
    if n == 0 {
        proof {
            assert(is_isqrt(0, 0)) by (nonlinear_arith);
        }
        return 0;
    }
    let mut lo: u128 = 0;
    let mut hi: u128 = 0x1_0000_0000_0000_0000;
    if n < 0xffff_ffff_ffff_ffff {
        hi = n + 1;
        proof {
            assert((n + 1) * (n + 1) > n) by (nonlinear_arith)
                requires
                    n >= 0,
            ;
        }
    } else {
        proof {
            assert((hi as int) * (hi as int) > u128::MAX) by (nonlinear_arith)
                requires
                    hi == 0x1_0000_0000_0000_0000u128,
            ;
        }
    }
    while lo + 1 < hi
        invariant
            0 <= lo < hi,
            lo * lo <= n,
            hi * hi > n,
            hi <= 0x1_0000_0000_0000_0000,
        decreases hi - lo,
    {
        let mid: u128 = lo + (hi - lo) / 2;
        proof {
            assert(lo < mid < hi);
            assert((mid as int) * (mid as int) <= u128::MAX) by (nonlinear_arith)
                requires
                    0 <= mid <= 0xffff_ffff_ffff_ffffu128,
            ;
        }
        if mid * mid <= n {
            lo = mid;
        } else {
            hi = mid;
        }
    }
    lo
}

/// `|a * b|` stays within the product of the operands' bounds.
pub proof fn lemma_mul_abs_bound(a: int, b: int, bound_a: int, bound_b: int)
    by (nonlinear_arith)
    requires
        -bound_a <= a <= bound_a,
        -bound_b <= b <= bound_b,
        0 <= bound_a,
        0 <= bound_b,
    ensures
        -(bound_a * bound_b) <= a * b <= bound_a * bound_b,
{
}

} // verus!
