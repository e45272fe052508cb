//! Spectrogram model for the offline analyzer: a sequence of magnitude
//! spectra in micro-units, with band- and frame-energy queries.
//!
//! The windowed FFT itself is floating-point signal work done outside the
//! engine; the engine consumes its magnitudes scaled to micro-units and does
//! every decision on exact integers.

use vstd::prelude::*;

verus! {

use crate::fixed::{round_div_spec, is_isqrt, isqrt_u128, round_div_u64};

/// STFT analysis window length, samples.
pub const WINDOW_SIZE: usize = 2048;

/// STFT hop length, samples.
pub const HOP_SIZE: usize = 512;

/// Number of magnitude bins per frame: `WINDOW_SIZE / 2 + 1`.
pub const NUM_BINS: usize = 1025;

/// Most frames a spectrogram may carry.
pub const MAX_FRAMES: usize = 10_000_000;

/// Sum of a magnitude sequence.
pub open spec fn spec_sum(s: Seq<u32>) -> int
    decreases s.len(),
{
    if s.len() == 0 {
        0
    } else {
        spec_sum(s.drop_last()) + s.last()
    }
}

/// Sum of squares of a magnitude sequence.
pub open spec fn spec_sum_sq(s: Seq<u32>) -> int
    decreases s.len(),
{
    if s.len() == 0 {
        0
    } else {
        spec_sum_sq(s.drop_last()) + s.last() * s.last()
    }
}

/// `spec_sum` is bounded by length times the largest element bound.
pub proof fn lemma_spec_sum_bound(s: Seq<u32>)
    ensures
        0 <= spec_sum(s) <= s.len() * 0x1_0000_0000,
    decreases s.len(),
{
    if s.len() == 0 {
    } else {
        lemma_spec_sum_bound(s.drop_last());
    }
}

/// `spec_sum_sq` is bounded by length times the largest square.
pub proof fn lemma_spec_sum_sq_bound(s: Seq<u32>)
    ensures
        0 <= spec_sum_sq(s) <= s.len() * 0xffff_fffe_0000_0001,
    decreases s.len(),
{
    if s.len() == 0 {
    } else {
        lemma_spec_sum_sq_bound(s.drop_last());
        assert(s.last() * s.last() <= 0xffff_fffe_0000_0001) by (nonlinear_arith)
            requires
                0 <= s.last() < 0x1_0000_0000,
        ;
    }
}

/// Sum of the magnitudes in `v[lo..hi]`.
pub fn sum_range(v: &Vec<u32>, lo: usize, hi: usize) -> (r: u128)
    requires
        lo <= hi <= v@.len(),
        v@.len() <= 0x1_0000_0000,
    ensures
        r == spec_sum(v@.subrange(lo as int, hi as int)),
{
    let mut acc: u128 = 0;
    let mut i: usize = lo;
    proof {
        lemma_spec_sum_bound(v@.subrange(lo as int, hi as int));
    }
    while i < hi
        invariant
            lo <= i <= hi <= v@.len(),
            v@.len() <= 0x1_0000_0000,
            acc == spec_sum(v@.subrange(lo as int, i as int)),
            0 <= acc <= (i - lo) * 0x1_0000_0000,
        decreases hi - i,
    {
        proof {
            assert(v@.subrange(lo as int, i + 1).drop_last() =~= v@.subrange(lo as int, i as int));
            assert(v@.subrange(lo as int, i + 1).last() == v@[i as int]);
        }
        acc = acc + v[i] as u128;
        i = i + 1;
    }
    acc
}

/// Sum of the squared magnitudes in `v[lo..hi]`.
pub fn sum_sq_range(v: &Vec<u32>, lo: usize, hi: usize) -> (r: u128)
    requires
        lo <= hi <= v@.len(),
        v@.len() <= 0x1_0000_0000,
    ensures
        r == spec_sum_sq(v@.subrange(lo as int, hi as int)),
{
    let mut acc: u128 = 0;
    let mut i: usize = lo;
    while i < hi
        invariant
            lo <= i <= hi <= v@.len(),
            v@.len() <= 0x1_0000_0000,
            acc == spec_sum_sq(v@.subrange(lo as int, i as int)),
            0 <= acc <= (i - lo) * 0xffff_fffe_0000_0001,
        decreases hi - i,
    {
        proof {
            assert(v@.subrange(lo as int, i + 1).drop_last() =~= v@.subrange(lo as int, i as int));
            assert(v@.subrange(lo as int, i + 1).last() == v@[i as int]);
            assert((v@[i as int] as int) * (v@[i as int] as int) <= 0xffff_fffe_0000_0001)
                by (nonlinear_arith)
                requires
                    0 <= v@[i as int] < 0x1_0000_0000u64,
            ;
        }
        acc = acc + (v[i] as u128) * (v[i] as u128);
        i = i + 1;
    }
    acc
}

/// A sequence of magnitude spectra (micro-units), one frame per hop.
#[derive(Debug)]
pub struct Spectrogram {
    /// Each inner vector holds `NUM_BINS` magnitudes in micro-units.
    pub frames: Vec<Vec<u32>>,
    /// Hop size in samples, for converting frame index to time.
    pub hop_size: usize,
    /// Sample rate of the analyzed audio.
    pub sample_rate: u32,
}

impl Spectrogram {
    /// Structural invariant: every frame has `NUM_BINS` bins and the
    /// geometry is within the ranges the integer arithmetic needs.
    pub open spec fn wf(self) -> bool {
        &&& self.frames@.len() <= MAX_FRAMES
        &&& forall|i: int|
            0 <= i < self.frames@.len() ==> (#[trigger] self.frames@[i])@.len() == NUM_BINS
        &&& 1 <= self.hop_size <= 65_536
        &&& self.hop_size <= self.sample_rate
        &&& 1 <= self.sample_rate <= 1_000_000
    }

    /// Time of a frame in microseconds: `frame * hop / rate`, rounded.
    pub open spec fn spec_frame_to_micros(self, frame: int) -> int {
        round_div_spec(frame * self.hop_size * 1_000_000, self.sample_rate as int)
    }

    /// Time of a frame in microseconds.
    pub fn frame_to_micros(&self, frame: usize) -> (r: i64)
        requires
            self.wf(),
            frame <= MAX_FRAMES,
        ensures
            r == self.spec_frame_to_micros(frame as int),
            r >= 0,
    {
        proof {
            crate::fixed::lemma_mul_abs_bound(frame as int, self.hop_size as int, 10_000_000, 65_536);
        }
        let wide: u64 = frame as u64 * self.hop_size as u64;
        let r = round_div_u64(wide * 1_000_000, self.sample_rate as u64);
        proof {
            crate::fixed::lemma_round_div_nonneg(
                (wide as int) * 1_000_000,
                self.sample_rate as int,
            );
        }
        r as i64
    }

    /// Number of frequency bins per frame.
    pub fn num_bins(&self) -> (r: usize)
        ensures
            r == NUM_BINS,
    {
        WINDOW_SIZE / 2 + 1
    }

    /// Center frequency of a bin, milli-hertz: `bin * rate / WINDOW`.
    pub open spec fn spec_bin_to_millihz(self, bin: int) -> int {
        round_div_spec(bin * self.sample_rate * 1_000, WINDOW_SIZE as int)
    }

    /// Center frequency of a bin, milli-hertz.
    pub fn bin_to_millihz(&self, bin: usize) -> (r: u64)
        requires
            self.wf(),
            bin <= NUM_BINS,
        ensures
            r == self.spec_bin_to_millihz(bin as int),
    {
        proof {
            crate::fixed::lemma_mul_abs_bound(bin as int, self.sample_rate as int, 1025, 1_000_000);
        }
        round_div_u64(bin as u64 * self.sample_rate as u64 * 1_000, WINDOW_SIZE as u64)
    }

    /// The bin index holding a frequency (milli-hertz), rounded down.
    pub open spec fn spec_millihz_to_bin(self, hz_milli: int) -> int {
        (hz_milli * WINDOW_SIZE) / (self.sample_rate as int * 1_000)
    }

    /// The bin index holding a frequency (milli-hertz), rounded down.
    pub fn millihz_to_bin(&self, hz_milli: u64) -> (r: u64)
        requires
            self.wf(),
            hz_milli <= 100_000_000_000,
        ensures
            r == self.spec_millihz_to_bin(hz_milli as int),
    {
        proof {
            vstd::arithmetic::div_mod::lemma_div_pos_is_pos(
                (hz_milli as int) * (WINDOW_SIZE as int),
                self.sample_rate as int * 1_000,
            );
            vstd::arithmetic::div_mod::lemma_div_nonincreasing(
                (hz_milli as int) * (WINDOW_SIZE as int),
                self.sample_rate as int * 1_000,
            );
        }
        (hz_milli as u128 * WINDOW_SIZE as u128 / (self.sample_rate as u128 * 1_000)) as u64
    }

    /// RMS magnitude (micro-units) over the bins of one frame spanning a
    /// frequency band: the integer square root of the mean square.
    pub open spec fn spec_band_energy(self, frame: int, lo_hz_milli: int, hi_hz_milli: int) -> int {
        let lo0 = self.spec_millihz_to_bin(lo_hz_milli);
        let lo = if lo0 < 1 {
            1
        } else {
            lo0
        };
        let hi0 = self.spec_millihz_to_bin(hi_hz_milli);
        let hi = if hi0 > NUM_BINS - 1 {
            NUM_BINS - 1
        } else {
            hi0
        };
        if lo >= hi {
            0
        } else {
            let mean_sq = round_div_spec(
                spec_sum_sq(self.frames@[frame]@.subrange(lo, hi + 1)),
                hi - lo + 1,
            );
            choose|r: int| is_isqrt(mean_sq, r)
        }
    }

    /// RMS magnitude (micro-units) of one frame over a frequency band
    /// (milli-hertz, inclusive of the bins that span it).
    pub fn band_energy(&self, frame: usize, lo_hz_milli: u64, hi_hz_milli: u64) -> (r: u32)
        requires
            self.wf(),
            frame < self.frames@.len(),
            lo_hz_milli <= 100_000_000_000,
            hi_hz_milli <= 100_000_000_000,
        ensures
            r == self.spec_band_energy(frame as int, lo_hz_milli as int, hi_hz_milli as int),
    {
        let lo0 = self.millihz_to_bin(lo_hz_milli);
        let lo: usize = if lo0 < 1 {
            1
        } else if lo0 > NUM_BINS as u64 {
            NUM_BINS
        } else {
            lo0 as usize
        };
        let hi0 = self.millihz_to_bin(hi_hz_milli);
        let hi: usize = if hi0 > (NUM_BINS - 1) as u64 {
            NUM_BINS - 1
        } else {
            hi0 as usize
        };
        if lo >= hi {
            return 0;
        }
        let row = &self.frames[frame];
        let ssq = sum_sq_range(row, lo, hi + 1);
        proof {
            lemma_spec_sum_sq_bound(row@.subrange(lo as int, hi + 1));
        }
        let count: u64 = (hi - lo + 1) as u64;
        let mean_sq: u128 = (2 * ssq + count as u128) / (2 * count as u128);
        proof {
            vstd::arithmetic::div_mod::lemma_div_pos_is_pos(
                2 * (ssq as int) + count as int,
                2 * (count as int),
            );
            assert(row@.subrange(lo as int, hi + 1).len() == count);
            crate::fixed::lemma_round_div_le(
                ssq as int,
                count as int,
                0xffff_fffe_0000_0001,
            );
        }
        let rms = isqrt_u128(mean_sq);
        proof {
            assert(is_isqrt(mean_sq as int, rms as int));
            assert(rms < 0x1_0000_0000) by {
                if rms >= 0x1_0000_0000 {
                    assert((rms as int) * (rms as int) > 0xffff_fffe_0000_0001)
                        by (nonlinear_arith)
                        requires
                            rms >= 0x1_0000_0000u128,
                    ;
                }
            }
            lemma_isqrt_unique_forall(mean_sq as int);
        }
        rms as u32
    }

    /// RMS magnitude (micro-units) of one whole frame.
    pub open spec fn spec_frame_energy(self, frame: int) -> int {
        let mean_sq = round_div_spec(spec_sum_sq(self.frames@[frame]@), NUM_BINS as int);
        choose|r: int| is_isqrt(mean_sq, r)
    }

    /// RMS magnitude (micro-units) of one whole frame.
    pub fn frame_energy(&self, frame: usize) -> (r: u32)
        requires
            self.wf(),
            frame < self.frames@.len(),
        ensures
            r == self.spec_frame_energy(frame as int),
    {
        let row = &self.frames[frame];
        let ssq = sum_sq_range(row, 0, row.len());
        proof {
            lemma_spec_sum_sq_bound(row@.subrange(0, row@.len() as int));
            assert(row@.subrange(0, row@.len() as int) =~= row@);
        }
        let count: u64 = NUM_BINS as u64;
        let mean_sq: u128 = (2 * ssq + count as u128) / (2 * count as u128);
        proof {
            vstd::arithmetic::div_mod::lemma_div_pos_is_pos(
                2 * (ssq as int) + count as int,
                2 * (count as int),
            );
            crate::fixed::lemma_round_div_le(
                ssq as int,
                count as int,
                0xffff_fffe_0000_0001,
            );
        }
        let rms = isqrt_u128(mean_sq);
        proof {
            assert(is_isqrt(mean_sq as int, rms as int));
            assert(rms < 0x1_0000_0000) by {
                if rms >= 0x1_0000_0000 {
                    assert((rms as int) * (rms as int) > 0xffff_fffe_0000_0001)
                        by (nonlinear_arith)
                        requires
                            rms >= 0x1_0000_0000u128,
                    ;
                }
            }
            lemma_isqrt_unique_forall(mean_sq as int);
        }
        rms as u32
    }
}

/// Two integer square roots of the same number are equal.
pub proof fn lemma_isqrt_unique(n: int, a: int, b: int)
    requires
        is_isqrt(n, a),
        is_isqrt(n, b),
    ensures
        a == b,
{
    if a < b {
        assert((a + 1) * (a + 1) <= b * b) by (nonlinear_arith)
            requires
                0 <= a,
                0 <= b,
                a + 1 <= b,
        ;
    }
    if b < a {
        assert((b + 1) * (b + 1) <= a * a) by (nonlinear_arith)
            requires
                0 <= a,
                0 <= b,
                b + 1 <= a,
        ;
    }
}

/// The integer square root is unique, so `choose` picks the computed one.
pub proof fn lemma_isqrt_unique_forall(n: int)
    ensures
        forall|a: int, b: int| is_isqrt(n, a) && is_isqrt(n, b) ==> a == b,
{
    assert forall|a: int, b: int| is_isqrt(n, a) && is_isqrt(n, b) implies a == b by {
        lemma_isqrt_unique(n, a, b);
    }
}

} // verus!
