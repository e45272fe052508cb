//! The track path: a Catmull-Rom spline with an arc-length lookup table, so
//! progress in `[0, 1]` means uniform distance along the curve rather than
//! uniform parameter.
//!
//! Coordinates are micro-pixels. The table maps accumulated chord distance to
//! curve parameter; a progress query scales into distance, binary-searches
//! the table, interpolates the parameter, and evaluates the curve there.

use vstd::prelude::*;

verus! {

use crate::fixed::{
    round_div_spec, round_div_i128, is_isqrt, isqrt_u128, lemma_round_div_le,
    lemma_round_div_nonneg, lemma_mul_abs_bound,
};
use crate::stft::{lemma_isqrt_unique_forall};

/// Largest control-point coordinate magnitude, micro-pixels.
pub const CTRL_ABS: i64 = 10_000_000_000;

/// Largest spline position magnitude, micro-pixels.
pub const POS_ABS: i64 = 150_000_000_000;

/// Most control points a path may have.
pub const MAX_CTRL_POINTS: usize = 10_000;

/// Most arc-length samples per curve segment.
pub const MAX_SAMPLES_PER_SEGMENT: usize = 1_000;

/// One coordinate of the Catmull-Rom cubic through `a0..a3` at local
/// parameter `u` (micro-units): `0.5 * (2 a1 + (a2 - a0) u + (2 a0 - 5 a1 +
/// 4 a2 - a3) u^2 + (-a0 + 3 a1 - 3 a2 + a3) u^3)`, rounded.
pub open spec fn spec_catmull_component(a0: int, a1: int, a2: int, a3: int, u: int) -> int {
    round_div_spec(
        2 * a1 * 1_000_000_000_000_000_000 + (a2 - a0) * u * 1_000_000_000_000 + (2 * a0 - 5 * a1
            + 4 * a2 - a3) * (u * u) * 1_000_000 + (3 * a1 - a0 - 3 * a2 + a3) * (u * u * u),
        2_000_000_000_000_000_000,
    )
}

/// One coordinate of the curve's velocity at local parameter `u`:
/// `0.5 * ((a2 - a0) + 2 (2 a0 - 5 a1 + 4 a2 - a3) u + 3 (-a0 + 3 a1 - 3 a2
/// + a3) u^2)`, micro-pixels per unit parameter, rounded.
pub open spec fn spec_catmull_velocity(a0: int, a1: int, a2: int, a3: int, u: int) -> int {
    round_div_spec(
        (a2 - a0) * 1_000_000_000_000 + 2 * (2 * a0 - 5 * a1 + 4 * a2 - a3) * u * 1_000_000 + 3 * (
        3 * a1 - a0 - 3 * a2 + a3) * (u * u),
        2_000_000_000_000,
    )
}

fn catmull_component(a0: i64, a1: i64, a2: i64, a3: i64, u: i64) -> (r: i64)
    requires
        -CTRL_ABS <= a0 <= CTRL_ABS,
        -CTRL_ABS <= a1 <= CTRL_ABS,
        -CTRL_ABS <= a2 <= CTRL_ABS,
        -CTRL_ABS <= a3 <= CTRL_ABS,
        0 <= u <= 1_000_000,
    ensures
        r == spec_catmull_component(a0 as int, a1 as int, a2 as int, a3 as int, u as int),
        -POS_ABS <= r <= POS_ABS,
{
    let c1: i128 = a2 as i128 - a0 as i128;
    let c2: i128 = 2 * a0 as i128 - 5 * a1 as i128 + 4 * a2 as i128 - a3 as i128;
    let c3: i128 = 3 * a1 as i128 - a0 as i128 - 3 * a2 as i128 + a3 as i128;
    proof {
        lemma_mul_abs_bound(u as int, u as int, 1_000_000, 1_000_000);
    }
    let uu: i128 = u as i128 * u as i128;
    proof {
        lemma_mul_abs_bound((u as int) * (u as int), u as int, 1_000_000_000_000, 1_000_000);
        lemma_mul_abs_bound(c1 as int, u as int, 20_000_000_000, 1_000_000);
        lemma_mul_abs_bound(
            (c1 as int) * (u as int),
            1_000_000_000_000,
            20_000_000_000_000_000,
            1_000_000_000_000,
        );
        lemma_mul_abs_bound(c2 as int, uu as int, 120_000_000_000, 1_000_000_000_000);
        lemma_mul_abs_bound(
            (c2 as int) * (uu as int),
            1_000_000,
            120_000_000_000_000_000_000_000_000,
            1_000_000,
        );
        lemma_mul_abs_bound(
            c3 as int,
            (uu as int) * (u as int),
            80_000_000_000,
            1_000_000_000_000_000_000,
        );
    }
    let num: i128 = 2 * a1 as i128 * 1_000_000_000_000_000_000 + c1 * (u as i128)
        * 1_000_000_000_000 + c2 * uu * 1_000_000 + c3 * (uu * (u as i128));
    proof {
        if num >= 0 {
            lemma_round_div_le(num as int, 2_000_000_000_000_000_000, POS_ABS as int);
            lemma_round_div_nonneg(num as int, 2_000_000_000_000_000_000);
        } else {
            lemma_round_div_le(-(num as int), 2_000_000_000_000_000_000, POS_ABS as int);
            lemma_round_div_nonneg(-(num as int), 2_000_000_000_000_000_000);
        }
    }
    round_div_i128(num, 2_000_000_000_000_000_000) as i64
}

fn catmull_velocity(a0: i64, a1: i64, a2: i64, a3: i64, u: i64) -> (r: i64)
    requires
        -CTRL_ABS <= a0 <= CTRL_ABS,
        -CTRL_ABS <= a1 <= CTRL_ABS,
        -CTRL_ABS <= a2 <= CTRL_ABS,
        -CTRL_ABS <= a3 <= CTRL_ABS,
        0 <= u <= 1_000_000,
    ensures
        r == spec_catmull_velocity(a0 as int, a1 as int, a2 as int, a3 as int, u as int),
        -400_000_000_000 <= r <= 400_000_000_000,
{
    let c1: i128 = a2 as i128 - a0 as i128;
    let c2: i128 = 2 * a0 as i128 - 5 * a1 as i128 + 4 * a2 as i128 - a3 as i128;
    let c3: i128 = 3 * a1 as i128 - a0 as i128 - 3 * a2 as i128 + a3 as i128;
    proof {
        lemma_mul_abs_bound(u as int, u as int, 1_000_000, 1_000_000);
        lemma_mul_abs_bound(2 * (c2 as int), u as int, 240_000_000_000, 1_000_000);
        lemma_mul_abs_bound(
            2 * (c2 as int) * (u as int),
            1_000_000,
            240_000_000_000_000_000,
            1_000_000,
        );
        lemma_mul_abs_bound(
            3 * (c3 as int),
            (u as int) * (u as int),
            240_000_000_000,
            1_000_000_000_000,
        );
    }
    let num: i128 = c1 * 1_000_000_000_000 + 2 * c2 * (u as i128) * 1_000_000 + 3 * c3 * (
    u as i128 * u as i128);
    proof {
        if num >= 0 {
            lemma_round_div_le(num as int, 2_000_000_000_000, 400_000_000_000);
            lemma_round_div_nonneg(num as int, 2_000_000_000_000);
        } else {
            lemma_round_div_le(-(num as int), 2_000_000_000_000, 400_000_000_000);
            lemma_round_div_nonneg(-(num as int), 2_000_000_000_000);
        }
    }
    round_div_i128(num, 2_000_000_000_000) as i64
}

/// Control points in range for the spline arithmetic.
pub open spec fn spec_points_wf(points: Seq<(i64, i64)>) -> bool {
    &&& 4 <= points.len() <= MAX_CTRL_POINTS
    &&& forall|i: int|
        0 <= i < points.len() ==> {
            &&& -CTRL_ABS <= (#[trigger] points[i]).0 <= CTRL_ABS
            &&& -CTRL_ABS <= points[i].1 <= CTRL_ABS
        }
}

/// Position on the whole curve at global parameter `t` (micro-units of
/// segment index): segment `t / 1` (clamped to the last), local parameter
/// the remainder.
pub open spec fn spec_curve_position(points: Seq<(i64, i64)>, t: int) -> (int, int) {
    let segs = points.len() - 3;
    let seg0 = t / 1_000_000;
    let seg = if seg0 > segs - 1 {
        segs - 1
    } else {
        seg0
    };
    let u = t - seg * 1_000_000;
    (
        spec_catmull_component(
            points[seg].0 as int,
            points[seg + 1].0 as int,
            points[seg + 2].0 as int,
            points[seg + 3].0 as int,
            u,
        ),
        spec_catmull_component(
            points[seg].1 as int,
            points[seg + 1].1 as int,
            points[seg + 2].1 as int,
            points[seg + 3].1 as int,
            u,
        ),
    )
}

/// Velocity on the whole curve at global parameter `t`.
pub open spec fn spec_curve_velocity(points: Seq<(i64, i64)>, t: int) -> (int, int) {
    let segs = points.len() - 3;
    let seg0 = t / 1_000_000;
    let seg = if seg0 > segs - 1 {
        segs - 1
    } else {
        seg0
    };
    let u = t - seg * 1_000_000;
    (
        spec_catmull_velocity(
            points[seg].0 as int,
            points[seg + 1].0 as int,
            points[seg + 2].0 as int,
            points[seg + 3].0 as int,
            u,
        ),
        spec_catmull_velocity(
            points[seg].1 as int,
            points[seg + 1].1 as int,
            points[seg + 2].1 as int,
            points[seg + 3].1 as int,
            u,
        ),
    )
}

/// Evaluate the curve position at global parameter `t` (micro-units).
pub fn curve_position(points: &Vec<(i64, i64)>, t: i64) -> (r: (i64, i64))
    requires
        spec_points_wf(points@),
        0 <= t <= (points@.len() - 3) * 1_000_000,
    ensures
        r.0 == spec_curve_position(points@, t as int).0,
        r.1 == spec_curve_position(points@, t as int).1,
        -POS_ABS <= r.0 <= POS_ABS,
        -POS_ABS <= r.1 <= POS_ABS,
{
    let segs: usize = points.len() - 3;
    let seg0: i64 = t / 1_000_000;
    let seg: usize = if seg0 > segs as i64 - 1 {
        segs - 1
    } else {
        seg0 as usize
    };
    proof {
        vstd::arithmetic::div_mod::lemma_div_pos_is_pos(t as int, 1_000_000);
        vstd::arithmetic::div_mod::lemma_fundamental_div_mod(t as int, 1_000_000);
        vstd::arithmetic::div_mod::lemma_mod_bound(t as int, 1_000_000);
        vstd::arithmetic::mul::lemma_mul_inequality(seg as int, (segs - 1) as int, 1_000_000);
        assert(seg as int * 1_000_000 == 1_000_000 * (seg as int)) by (nonlinear_arith);
        if seg0 <= segs as i64 - 1 {
            assert(1_000_000 * (t as int / 1_000_000) == (t as int / 1_000_000) * 1_000_000)
                by (nonlinear_arith);
        }
    }
    let u: i64 = t - seg as i64 * 1_000_000;
    let x = catmull_component(points[seg].0, points[seg + 1].0, points[seg + 2].0, points[seg
        + 3].0, u);
    let y = catmull_component(points[seg].1, points[seg + 1].1, points[seg + 2].1, points[seg
        + 3].1, u);
    (x, y)
}

/// Evaluate the curve velocity at global parameter `t` (micro-units).
pub fn curve_velocity(points: &Vec<(i64, i64)>, t: i64) -> (r: (i64, i64))
    requires
        spec_points_wf(points@),
        0 <= t <= (points@.len() - 3) * 1_000_000,
    ensures
        r.0 == spec_curve_velocity(points@, t as int).0,
        r.1 == spec_curve_velocity(points@, t as int).1,
{
    let segs: usize = points.len() - 3;
    let seg0: i64 = t / 1_000_000;
    let seg: usize = if seg0 > segs as i64 - 1 {
        segs - 1
    } else {
        seg0 as usize
    };
    proof {
        vstd::arithmetic::div_mod::lemma_div_pos_is_pos(t as int, 1_000_000);
        vstd::arithmetic::div_mod::lemma_fundamental_div_mod(t as int, 1_000_000);
        vstd::arithmetic::div_mod::lemma_mod_bound(t as int, 1_000_000);
        vstd::arithmetic::mul::lemma_mul_inequality(seg as int, (segs - 1) as int, 1_000_000);
        assert(seg as int * 1_000_000 == 1_000_000 * (seg as int)) by (nonlinear_arith);
        if seg0 <= segs as i64 - 1 {
            assert(1_000_000 * (t as int / 1_000_000) == (t as int / 1_000_000) * 1_000_000)
                by (nonlinear_arith);
        }
    }
    let u: i64 = t - seg as i64 * 1_000_000;
    let x = catmull_velocity(points[seg].0, points[seg + 1].0, points[seg + 2].0, points[seg
        + 3].0, u);
    let y = catmull_velocity(points[seg].1, points[seg + 1].1, points[seg + 2].1, points[seg
        + 3].1, u);
    (x, y)
}

/// The global parameter of uniform sample `i` out of `spp` per segment.
pub open spec fn spec_sample_t(i: int, spp: int) -> int {
    round_div_spec(i * 1_000_000, spp)
}

/// Euclidean distance between curve samples `i - 1` and `i`.
pub open spec fn spec_chord(points: Seq<(i64, i64)>, spp: int, i: int) -> int {
    let a = spec_curve_position(points, spec_sample_t(i - 1, spp));
    let b = spec_curve_position(points, spec_sample_t(i, spp));
    let dx = b.0 - a.0;
    let dy = b.1 - a.1;
    let dd = dx * dx + dy * dy;
    choose|r: int| #[trigger] is_isqrt(dd, r)
}

/// Accumulated chord distance from the curve start to sample `i`.
pub open spec fn spec_lut_dist(points: Seq<(i64, i64)>, spp: int, i: int) -> int
    decreases i,
{
    if i <= 0 {
        0
    } else {
        spec_lut_dist(points, spp, i - 1) + spec_chord(points, spp, i)
    }
}

/// Arc-length lookup table: `(accumulated distance, parameter)` pairs at
/// uniform parameter samples, distances nondecreasing from `(0, 0)`.
#[derive(Debug)]
pub struct ArcLengthLut {
    pub entries: Vec<(u64, i64)>,
}

/// The spline path notes travel along: control points and the arc-length
/// table built from them.
#[derive(Debug)]
pub struct SplinePath {
    pub control_points: Vec<(i64, i64)>,
    pub samples_per_segment: usize,
    pub lut: ArcLengthLut,
}

impl SplinePath {
    /// Path invariant: well-formed control points and a table that is
    /// exactly the accumulated chord distances at the uniform samples.
    pub open spec fn wf(self) -> bool {
        &&& spec_points_wf(self.control_points@)
        &&& 1 <= self.samples_per_segment <= MAX_SAMPLES_PER_SEGMENT
        &&& self.lut.entries@.len() == (self.control_points@.len() - 3)
            * self.samples_per_segment + 1
        &&& forall|i: int|
            0 <= i < self.lut.entries@.len() ==> (#[trigger] self.lut.entries@[i]).0
                == spec_lut_dist(
                self.control_points@,
                self.samples_per_segment as int,
                i,
            )
        &&& forall|i: int|
            0 <= i < self.lut.entries@.len() ==> (#[trigger] self.lut.entries@[i]).1
                == spec_sample_t(i, self.samples_per_segment as int)
        &&& forall|i: int, j: int|
            0 <= i <= j < self.lut.entries@.len() ==> (#[trigger] self.lut.entries@[i]).0 <= (
            #[trigger] self.lut.entries@[j]).0
        &&& forall|i: int|
            0 <= i < self.lut.entries@.len() ==> 0 <= (#[trigger] self.lut.entries@[i]).1 <= (
            self.control_points@.len() - 3) * 1_000_000
    }

    /// Total arc length of the curve, micro-pixels.
    pub fn total_length(&self) -> (r: u64)
        requires
            self.wf(),
        ensures
            r == self.lut.entries@.last().0,
    {
        self.lut.entries[self.lut.entries.len() - 1].0
    }

    /// Build a path from Catmull-Rom control points, sampling the arc-length
    /// table at `samples_per_segment` uniform parameters per segment.
    /// Rejects paths with fewer than four control points or out-of-range
    /// coordinates.
    #[verifier::loop_isolation(false)]
    #[verifier::rlimit(100)]
    pub fn from_catmull_rom_points(points: Vec<(i64, i64)>, samples_per_segment: usize) -> (r:
        Option<SplinePath>)
        requires
            1 <= samples_per_segment <= MAX_SAMPLES_PER_SEGMENT,
        ensures
            r is Some <==> spec_points_wf(points@),
            r is Some ==> {
                &&& r->Some_0.wf()
                &&& r->Some_0.control_points@ == points@
                &&& r->Some_0.samples_per_segment == samples_per_segment
            },
    {
        if points.len() < 4 || points.len() > MAX_CTRL_POINTS {
            return None;
        }
        let mut i: usize = 0;
        while i < points.len()
            invariant
                0 <= i <= points@.len(),
                forall|k: int|
                    0 <= k < i ==> {
                        &&& -CTRL_ABS <= (#[trigger] points@[k]).0 <= CTRL_ABS
                        &&& -CTRL_ABS <= points@[k].1 <= CTRL_ABS
                    },
            decreases points@.len() - i,
        {
            let p = points[i];
            if p.0 < -CTRL_ABS || p.0 > CTRL_ABS || p.1 < -CTRL_ABS || p.1 > CTRL_ABS {
                return None;
            }
            i = i + 1;
        }

        let segs: usize = points.len() - 3;
        proof {
            lemma_mul_abs_bound(segs as int, samples_per_segment as int, 10_000, 1_000);
            vstd::arithmetic::mul::lemma_mul_nonnegative(
                segs as int,
                samples_per_segment as int,
            );
        }
        let total: usize = segs * samples_per_segment;
        let mut entries: Vec<(u64, i64)> = Vec::new();
        entries.push((0, 0));
        let mut prev = curve_position(&points, 0);
        proof {
            crate::fixed::lemma_round_div_exact(samples_per_segment as int, 0);
            assert(0 * 1_000_000 == 0 * (samples_per_segment as int)) by (nonlinear_arith);
            assert(spec_sample_t(0, samples_per_segment as int) == 0);
        }
        let mut dist: u64 = 0;
        let mut i: usize = 1;
        while i <= total
            invariant
                1 <= i <= total + 1,
                segs == points@.len() - 3,
                total == segs * samples_per_segment,
                entries@.len() == i,
                dist == spec_lut_dist(points@, samples_per_segment as int, i - 1),
                dist <= (i - 1) * 430_000_000_000,
                forall|k: int|
                    0 <= k < i ==> (#[trigger] entries@[k]).0 == spec_lut_dist(
                        points@,
                        samples_per_segment as int,
                        k,
                    ),
                forall|k: int|
                    0 <= k < i ==> (#[trigger] entries@[k]).1 == spec_sample_t(
                        k,
                        samples_per_segment as int,
                    ),
                forall|a: int, b: int|
                    0 <= a <= b < i ==> (#[trigger] entries@[a]).0 <= (#[trigger] entries@[b]).0,
                forall|k: int|
                    0 <= k < i ==> 0 <= (#[trigger] entries@[k]).1 <= segs * 1_000_000,
                prev.0 == spec_curve_position(
                    points@,
                    spec_sample_t(i - 1, samples_per_segment as int),
                ).0,
                prev.1 == spec_curve_position(
                    points@,
                    spec_sample_t(i - 1, samples_per_segment as int),
                ).1,
                -POS_ABS <= prev.0 <= POS_ABS,
                -POS_ABS <= prev.1 <= POS_ABS,
            decreases total + 1 - i,
        {
            proof {
                lemma_round_div_nonneg(i as int * 1_000_000, samples_per_segment as int);
                assert(i as int * 1_000_000 <= (segs as int * 1_000_000) * (
                samples_per_segment as int)) by (nonlinear_arith)
                    requires
                        i <= total,
                        total == segs * samples_per_segment,
                        samples_per_segment >= 1,
                        segs >= 1,
                ;
                lemma_round_div_le(
                    i as int * 1_000_000,
                    samples_per_segment as int,
                    segs as int * 1_000_000,
                );
            }
            let t: i64 = round_div_i128(
                i as i128 * 1_000_000,
                samples_per_segment as i128,
            ) as i64;
            let pos = curve_position(&points, t);
            let dx: i128 = pos.0 as i128 - prev.0 as i128;
            let dy: i128 = pos.1 as i128 - prev.1 as i128;
            proof {
                lemma_mul_abs_bound(dx as int, dx as int, 300_000_000_000, 300_000_000_000);
                lemma_mul_abs_bound(dy as int, dy as int, 300_000_000_000, 300_000_000_000);
                assert(dx * dx >= 0) by (nonlinear_arith);
                assert(dy * dy >= 0) by (nonlinear_arith);
            }
            let sq: u128 = (dx * dx + dy * dy) as u128;
            let chord = isqrt_u128(sq);
            proof {
                assert(is_isqrt(sq as int, chord as int));
                assert(chord <= 430_000_000_000) by {
                    if chord > 430_000_000_000 {
                        assert((chord as int) * (chord as int) > 180_000_000_000_000_000_000_000)
                            by (nonlinear_arith)
                            requires
                                chord > 430_000_000_000u128,
                        ;
                    }
                }
                lemma_isqrt_unique_forall(sq as int);
            }
            let ghost before_push = entries@;
            dist = dist + chord as u64;
            entries.push((dist, t));
            proof {
                assert forall|a: int, b: int|
                    0 <= a <= b < i + 1 implies (#[trigger] entries@[a]).0 <= (
                #[trigger] entries@[b]).0 by {
                    if b < i {
                        assert(entries@[a] == before_push[a]);
                        assert(entries@[b] == before_push[b]);
                    } else {
                        assert(entries@[b].0 == dist);
                        if a < i {
                            assert(entries@[a] == before_push[a]);
                            assert(before_push[a].0 <= before_push[i - 1].0);
                        }
                    }
                }
            }
            prev = pos;
            i = i + 1;
        }
        Some(SplinePath { control_points: points, samples_per_segment, lut: ArcLengthLut { entries } })
    }
}

/// Index of the first table entry whose distance reaches `d`, scanning from
/// `from`; the length when none does.
pub open spec fn spec_first_entry_ge(entries: Seq<(u64, i64)>, d: int, from: int) -> int
    decreases entries.len() - from,
{
    if from < 0 || from >= entries.len() {
        entries.len() as int
    } else if entries[from].0 >= d {
        from
    } else {
        spec_first_entry_ge(entries, d, from + 1)
    }
}

/// In a distance-sorted table, an index below which every distance is short
/// of `d` and at which the distance reaches `d` is the first such index.
proof fn lemma_first_entry_ge(entries: Seq<(u64, i64)>, d: int, from: int, k: int)
    requires
        0 <= from <= k <= entries.len(),
        forall|j: int| from <= j < k ==> (#[trigger] entries[j]).0 < d,
        k < entries.len() ==> entries[k].0 >= d,
    ensures
        spec_first_entry_ge(entries, d, from) == k,
    decreases k - from,
{
    if from < k {
        lemma_first_entry_ge(entries, d, from + 1, k);
    }
}

/// The parameter at a queried distance: the query is clamped to the table,
/// the first entry at or past it found, and the parameter interpolated
/// linearly between that entry and its predecessor.
pub open spec fn spec_distance_to_parameter(entries: Seq<(u64, i64)>, distance: int) -> int {
    let total = entries.last().0 as int;
    let d = if distance < 0 {
        0
    } else if distance > total {
        total
    } else {
        distance
    };
    let idx0 = spec_first_entry_ge(entries, d, 0);
    let idx = if idx0 > entries.len() - 1 {
        entries.len() - 1
    } else {
        idx0
    };
    if idx == 0 {
        entries[0].1 as int
    } else {
        let d0 = entries[idx - 1].0 as int;
        let t0 = entries[idx - 1].1 as int;
        let d1 = entries[idx].0 as int;
        let t1 = entries[idx].1 as int;
        if d1 == d0 {
            t0
        } else {
            t0 + round_div_spec((d - d0) * (t1 - t0), d1 - d0)
        }
    }
}

impl SplinePath {
    /// Convert a distance along the curve to a curve parameter by binary
    /// search over the table plus linear interpolation.
    #[verifier::loop_isolation(false)]
    pub fn distance_to_parameter(&self, distance: u64) -> (r: i64)
        requires
            self.wf(),
        ensures
            r == spec_distance_to_parameter(self.lut.entries@, distance as int),
            0 <= r <= (self.control_points@.len() - 3) * 1_000_000,
    {
        let n = self.lut.entries.len();
        let total = self.lut.entries[n - 1].0;
        let d: u64 = if distance > total {
            total
        } else {
            distance
        };

        // Binary search for the first entry at or past `d`.
        let mut lo: usize = 0;
        let mut hi: usize = n;
        while lo < hi
            invariant
                0 <= lo <= hi <= n,
                forall|j: int| 0 <= j < lo ==> (#[trigger] self.lut.entries@[j]).0 < d,
                forall|j: int| hi <= j < n ==> (#[trigger] self.lut.entries@[j]).0 >= d,
            decreases hi - lo,
        {
            let mid = lo + (hi - lo) / 2;
            if self.lut.entries[mid].0 < d {
                proof {
                    assert forall|j: int|
                        0 <= j < mid + 1 implies (#[trigger] self.lut.entries@[j]).0 < d by {
                        if j < lo {
                        } else {
                            assert(self.lut.entries@[j].0 <= self.lut.entries@[mid as int].0);
                        }
                    }
                }
                lo = mid + 1;
            } else {
                proof {
                    assert forall|j: int|
                        mid <= j < n implies (#[trigger] self.lut.entries@[j]).0 >= d by {
                        assert(self.lut.entries@[mid as int].0 <= self.lut.entries@[j].0);
                    }
                }
                hi = mid;
            }
        }
        proof {
            lemma_first_entry_ge(self.lut.entries@, d as int, 0, lo as int);
            if lo == n {
                assert(self.lut.entries@[n - 1].0 < d);
            }
        }
        let idx: usize = if lo > n - 1 {
            n - 1
        } else {
            lo
        };
        if idx == 0 {
            return self.lut.entries[0].1;
        }
        let e0 = self.lut.entries[idx - 1];
        let e1 = self.lut.entries[idx];
        if e1.0 == e0.0 {
            e0.1
        } else {
            proof {
                assert(e0.1 <= e1.1) by {
                    assert(self.lut.entries@[idx - 1].1 == spec_sample_t(
                        idx - 1,
                        self.samples_per_segment as int,
                    ));
                    assert(self.lut.entries@[idx as int].1 == spec_sample_t(
                        idx as int,
                        self.samples_per_segment as int,
                    ));
                    lemma_sample_t_monotone(idx - 1, idx as int, self.samples_per_segment as int);
                }
                assert(e0.0 < d <= e1.0);
                lemma_mul_abs_bound(
                    (d - e0.0) as int,
                    (e1.1 - e0.1) as int,
                    20_000_000_000_000_000_000,
                    20_000_000_000_000,
                );
                assert(((d - e0.0) as int) * ((e1.1 - e0.1) as int) >= 0) by (nonlinear_arith)
                    requires
                        d >= e0.0,
                        e1.1 >= e0.1,
                ;
                lemma_round_div_nonneg(
                    ((d - e0.0) as int) * ((e1.1 - e0.1) as int),
                    (e1.0 - e0.0) as int,
                );
                assert(((d - e0.0) as int) * ((e1.1 - e0.1) as int) <= ((e1.1 - e0.1) as int) * ((
                e1.0 - e0.0) as int)) by (nonlinear_arith)
                    requires
                        d <= e1.0,
                        e0.0 < e1.0,
                        e0.0 <= d,
                        e0.1 <= e1.1,
                ;
                lemma_round_div_le(
                    ((d - e0.0) as int) * ((e1.1 - e0.1) as int),
                    (e1.0 - e0.0) as int,
                    (e1.1 - e0.1) as int,
                );
            }
            let frac: i64 = round_div_i128(
                (d - e0.0) as i128 * (e1.1 - e0.1) as i128,
                (e1.0 - e0.0) as i128,
            ) as i64;
            e0.1 + frac
        }
    }

    /// Position at normalized progress: progress is clamped to `[0, 1]`
    /// (micro-units), scaled to a distance along the curve, mapped through
    /// the table and evaluated. A pure function of the control points and
    /// the progress.
    pub fn position_at_progress(&self, progress: i64) -> (r: (i64, i64))
        requires
            self.wf(),
        ensures
            r.0 == spec_curve_position(
                self.control_points@,
                spec_distance_to_parameter(
                    self.lut.entries@,
                    round_div_spec(
                        spec_clamp_progress(progress as int) * self.lut.entries@.last().0,
                        1_000_000,
                    ),
                ),
            ).0,
            r.1 == spec_curve_position(
                self.control_points@,
                spec_distance_to_parameter(
                    self.lut.entries@,
                    round_div_spec(
                        spec_clamp_progress(progress as int) * self.lut.entries@.last().0,
                        1_000_000,
                    ),
                ),
            ).1,
    {
        let p: i64 = if progress < 0 {
            0
        } else if progress > 1_000_000 {
            1_000_000
        } else {
            progress
        };
        let total = self.total_length();
        proof {
            lemma_mul_abs_bound(p as int, total as int, 1_000_000, 0xffff_ffff_ffff_ffff);
            lemma_round_div_nonneg((p as int) * (total as int), 1_000_000);
            assert((p as int) * (total as int) <= (total as int) * 1_000_000) by (nonlinear_arith)
                requires
                    0 <= p <= 1_000_000,
                    total >= 0,
            ;
            lemma_round_div_le((p as int) * (total as int), 1_000_000, total as int);
        }
        let dist: u64 = round_div_i128(p as i128 * total as i128, 1_000_000) as u64;
        let t = self.distance_to_parameter(dist);
        curve_position(&self.control_points, t)
    }

    /// Tangent (velocity direction) at normalized progress; the same
    /// traversal as `position_at_progress`, evaluated on the derivative.
    pub fn tangent_at_progress(&self, progress: i64) -> (r: (i64, i64))
        requires
            self.wf(),
        ensures
            r.0 == spec_curve_velocity(
                self.control_points@,
                spec_distance_to_parameter(
                    self.lut.entries@,
                    round_div_spec(
                        spec_clamp_progress(progress as int) * self.lut.entries@.last().0,
                        1_000_000,
                    ),
                ),
            ).0,
            r.1 == spec_curve_velocity(
                self.control_points@,
                spec_distance_to_parameter(
                    self.lut.entries@,
                    round_div_spec(
                        spec_clamp_progress(progress as int) * self.lut.entries@.last().0,
                        1_000_000,
                    ),
                ),
            ).1,
    {
        let p: i64 = if progress < 0 {
            0
        } else if progress > 1_000_000 {
            1_000_000
        } else {
            progress
        };
        let total = self.total_length();
        proof {
            lemma_mul_abs_bound(p as int, total as int, 1_000_000, 0xffff_ffff_ffff_ffff);
            lemma_round_div_nonneg((p as int) * (total as int), 1_000_000);
            assert((p as int) * (total as int) <= (total as int) * 1_000_000) by (nonlinear_arith)
                requires
                    0 <= p <= 1_000_000,
                    total >= 0,
            ;
            lemma_round_div_le((p as int) * (total as int), 1_000_000, total as int);
        }
        let dist: u64 = round_div_i128(p as i128 * total as i128, 1_000_000) as u64;
        let t = self.distance_to_parameter(dist);
        curve_velocity(&self.control_points, t)
    }
}

/// Progress clamped to one unit.
pub open spec fn spec_clamp_progress(p: int) -> int {
    if p < 0 {
        0
    } else if p > 1_000_000 {
        1_000_000
    } else {
        p
    }
}

/// Spline determinism: two paths built from the same control points at the
/// same sampling density have identical tables, so every progress query
/// lands on the same curve point.
pub proof fn lemma_spline_determinism(a: &SplinePath, b: &SplinePath)
    requires
        a.wf(),
        b.wf(),
        a.control_points@ == b.control_points@,
        a.samples_per_segment == b.samples_per_segment,
    ensures
        a.lut.entries@ == b.lut.entries@,
{
    assert(a.lut.entries@ =~= b.lut.entries@) by {
        assert forall|i: int| 0 <= i < a.lut.entries@.len() implies #[trigger] a.lut.entries@[i]
            == b.lut.entries@[i] by {
            assert(a.lut.entries@[i].0 == spec_lut_dist(
                a.control_points@,
                a.samples_per_segment as int,
                i,
            ));
            assert(b.lut.entries@[i].0 == spec_lut_dist(
                b.control_points@,
                b.samples_per_segment as int,
                i,
            ));
            assert(a.lut.entries@[i].1 == spec_sample_t(i, a.samples_per_segment as int));
            assert(b.lut.entries@[i].1 == spec_sample_t(i, b.samples_per_segment as int));
        }
    }
}

/// Parameter samples are ordered with their index.
proof fn lemma_sample_t_monotone(i: int, j: int, spp: int)
    requires
        0 <= i <= j,
        spp >= 1,
    ensures
        spec_sample_t(i, spp) <= spec_sample_t(j, spp),
{
    crate::fixed::lemma_round_div_monotone(i * 1_000_000, j * 1_000_000, spp);
}

} // verus!
