//! Camera easing: the cubic ease-in-out curve the camera tracker animates
//! zoom, pan and rotation with.

use vstd::prelude::*;

verus! {

use crate::fixed::round_div_spec;
use vstd::arithmetic::div_mod::lemma_div_multiples_vanish_quotient;

/// Cubic ease-in-out over one unit (micro-units): `4 t^3` rising, mirrored
/// falling, input clamped to `[0, 1]`.
pub open spec fn spec_ease_in_out_cubic(t: int) -> int {
    let c = if t < 0 {
        0
    } else if t > 1_000_000 {
        1_000_000
    } else {
        t
    };
    if c < 500_000 {
        round_div_spec(4 * (c * c * c), 1_000_000_000_000)
    } else {
        1_000_000 - round_div_spec(
            (2_000_000 - 2 * c) * (2_000_000 - 2 * c) * (2_000_000 - 2 * c),
            2_000_000_000_000,
        )
    }
}

/// Cubic ease-in-out over one unit (micro-units), input clamped to `[0, 1]`.
pub fn ease_in_out_cubic(t: i64) -> (r: i64)
    ensures
        r == spec_ease_in_out_cubic(t as int),
{
    let c: i64 = if t < 0 {
        0
    } else if t > 1_000_000 {
        1_000_000
    } else {
        t
    };
    if c < 500_000 {
        proof {
            crate::fixed::lemma_mul_abs_bound(c as int, c as int, 500_000, 500_000);
            crate::fixed::lemma_mul_abs_bound(
                (c as int) * (c as int),
                c as int,
                250_000_000_000,
                500_000,
            );
            crate::fixed::lemma_round_div_nonneg(
                4 * ((c as int) * (c as int) * (c as int)),
                1_000_000_000_000,
            );
            crate::fixed::lemma_round_div_le(
                4 * ((c as int) * (c as int) * (c as int)),
                1_000_000_000_000,
                1_000_000,
            );
            assert(4 * ((c as int) * (c as int) * (c as int)) >= 0) by (nonlinear_arith)
                requires
                    c >= 0,
            ;
            assert(4 * ((c as int) * (c as int) * (c as int)) <= 1_000_000
                * 1_000_000_000_000) by (nonlinear_arith)
                requires
                    0 <= c <= 500_000,
            ;
        }
        let ccc: i128 = c as i128 * c as i128 * c as i128;
        crate::fixed::round_div_i128(4 * ccc, 1_000_000_000_000) as i64
    } else {
        let m: i128 = 2_000_000 - 2 * c as i128;
        proof {
            crate::fixed::lemma_mul_abs_bound(m as int, m as int, 1_000_000, 1_000_000);
            crate::fixed::lemma_mul_abs_bound(
                (m as int) * (m as int),
                m as int,
                1_000_000_000_000,
                1_000_000,
            );
            assert((m as int) * (m as int) * (m as int) >= 0) by (nonlinear_arith)
                requires
                    m >= 0,
            ;
            crate::fixed::lemma_round_div_nonneg(
                (m as int) * (m as int) * (m as int),
                2_000_000_000_000,
            );
            crate::fixed::lemma_round_div_le(
                (m as int) * (m as int) * (m as int),
                2_000_000_000_000,
                500_000,
            );
            assert((m as int) * (m as int) * (m as int) <= 500_000 * 2_000_000_000_000)
                by (nonlinear_arith)
                requires
                    0 <= m <= 1_000_000,
            ;
        }
        let fall: i64 = crate::fixed::round_div_i128(m * m * m, 2_000_000_000_000) as i64;
        1_000_000 - fall
    }
}

/// Ease symmetry: for any point of the unit interval, the curve's values at
/// the point and at its mirror sum to exactly one unit.
pub proof fn lemma_ease_symmetry(t: int)
    requires
        0 <= t <= 1_000_000,
    ensures
        spec_ease_in_out_cubic(t) + spec_ease_in_out_cubic(1_000_000 - t) == 1_000_000,
{
    if t < 500_000 {
        let u = 1_000_000 - t;
        assert(u > 500_000);
        // The falling branch at the mirror point reduces to the rising term:
        // (2 t)^3 / 2 == 4 t^3.
        assert((2_000_000 - 2 * u) == 2 * t);
        assert((2 * t) * (2 * t) * (2 * t) == 8 * (t * t * t)) by (nonlinear_arith);
        assert(t * t * t >= 0) by (nonlinear_arith)
            requires
                t >= 0,
        ;
        // round_div(8 x, 2 d) == round_div(4 x, d): both quotients share the
        // doubled numerator and denominator.
        let x = t * t * t;
        assert(round_div_spec(8 * x, 2_000_000_000_000) == (16 * x + 2_000_000_000_000) / (
        4_000_000_000_000));
        assert(round_div_spec(4 * x, 1_000_000_000_000) == (8 * x + 1_000_000_000_000) / (
        2_000_000_000_000));
        lemma_div_multiples_vanish_quotient(
            2,
            8 * x + 1_000_000_000_000,
            2_000_000_000_000,
        );
        assert(2 * (8 * x + 1_000_000_000_000) == 16 * x + 2_000_000_000_000);
        assert(2 * 2_000_000_000_000 == 4_000_000_000_000);
    } else if t == 500_000 {
        assert(spec_ease_in_out_cubic(500_000) == 500_000) by (nonlinear_arith);
    } else {
        let u = 1_000_000 - t;
        assert(u < 500_000);
        assert((2_000_000 - 2 * t) == 2 * u);
        assert((2 * u) * (2 * u) * (2 * u) == 8 * (u * u * u)) by (nonlinear_arith);
        assert(u * u * u >= 0) by (nonlinear_arith)
            requires
                u >= 0,
        ;
        let x = u * u * u;
        assert(round_div_spec(8 * x, 2_000_000_000_000) == (16 * x + 2_000_000_000_000) / (
        4_000_000_000_000));
        assert(round_div_spec(4 * x, 1_000_000_000_000) == (8 * x + 1_000_000_000_000) / (
        2_000_000_000_000));
        lemma_div_multiples_vanish_quotient(
            2,
            8 * x + 1_000_000_000_000,
            2_000_000_000_000,
        );
        assert(2 * (8 * x + 1_000_000_000_000) == 16 * x + 2_000_000_000_000);
        assert(2 * 2_000_000_000_000 == 4_000_000_000_000);
    }
}

} // verus!
