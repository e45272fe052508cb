//! The song conductor: a drift-correcting clock that maps wall time to
//! musical beat position.
//!
//! The conductor keeps a rolling window of `(wall_time, audio_beats)` samples
//! (microseconds / micro-beats) and fits a linear regression through them;
//! the reported beat is the regression's prediction at the current wall time,
//! never allowed to move backwards. While the window's time span is below
//! `MIN_REGRESSION_SPAN_US` the raw audio beat is tracked directly (warm-up).
//! If the prediction drifts more than `DRIFT_THRESHOLD_US` from the raw
//! audio clock for more than `DRIFT_FRAME_LIMIT` consecutive steps, the
//! window is reseeded and the beat snaps to the audio clock (hard resync) —
//! the one event that may move the beat backwards.
//!
//! Regression x-values are centered on the window's first sample before any
//! sum is formed; without that, a large wall-clock origin (menus open for
//! minutes before play) cancels catastrophically and the slope goes wild.

use vstd::prelude::*;

verus! {

use crate::fixed::{round_div_spec, round_div_i128, lemma_mul_abs_bound};

/// Capacity of the rolling sample window.
pub const MAX_SAMPLES: usize = 15;

/// Predicted-vs-raw drift that counts as excessive, microseconds.
pub const DRIFT_THRESHOLD_US: i64 = 50_000;

/// Consecutive drifting steps tolerated before a hard resync.
pub const DRIFT_FRAME_LIMIT: u32 = 3;

/// Minimum window time span (microseconds) before regression is trusted.
pub const MIN_REGRESSION_SPAN_US: i64 = 100_000;

/// Largest wall-time / audio-beat magnitude a sample may carry (micro-units).
pub const MAX_SAMPLE_ABS: i64 = 50_000_000_000;

/// Clamp bound for the predicted beat (micro-beats).
pub const PREDICTED_BEAT_CLAMP: i64 = 1_000_000_000_000_000;

/// A BPM change anchored at a beat position.
#[derive(Debug, Clone, Copy, PartialEq, Eq, Structural)]
pub struct TimingPoint {
    /// Beat (micro-beats) at which the change takes effect.
    pub beat: i64,
    /// New tempo, milli-BPM.
    pub bpm_milli: u32,
}

/// Sum of the window's audio-beat values.
pub open spec fn sum_y(s: Seq<(i64, i64)>) -> int
    decreases s.len(),
{
    if s.len() == 0 {
        0
    } else {
        sum_y(s.drop_last()) + s.last().1
    }
}

/// Sum of the window's wall times, centered on `x0`.
pub open spec fn sum_xc(s: Seq<(i64, i64)>, x0: int) -> int
    decreases s.len(),
{
    if s.len() == 0 {
        0
    } else {
        sum_xc(s.drop_last(), x0) + (s.last().0 - x0)
    }
}

/// Sum of squares of the centered wall times.
pub open spec fn sum_xx(s: Seq<(i64, i64)>, x0: int) -> int
    decreases s.len(),
{
    if s.len() == 0 {
        0
    } else {
        sum_xx(s.drop_last(), x0) + (s.last().0 - x0) * (s.last().0 - x0)
    }
}

/// Sum of centered wall times times audio beats.
pub open spec fn sum_xy(s: Seq<(i64, i64)>, x0: int) -> int
    decreases s.len(),
{
    if s.len() == 0 {
        0
    } else {
        sum_xy(s.drop_last(), x0) + (s.last().0 - x0) * s.last().1
    }
}

/// Least-squares slope (micro-beats per second) and intercept (micro-beats)
/// of the sample window, x-centered on the first sample. A window of fewer
/// than two samples degenerates to `(0, y)` or `(y/x, 0)`; zero variance
/// degenerates to `(0, mean_y)`.
pub open spec fn spec_regression(w: Seq<(i64, i64)>) -> (int, int) {
    if w.len() == 0 {
        (0, 0)
    } else if w.len() == 1 {
        if w[0].0 == 0 {
            (0, w[0].1 as int)
        } else {
            (round_div_spec(1_000_000 * w[0].1, w[0].0 as int), 0)
        }
    } else {
        let x0 = w[0].0 as int;
        let n = w.len() as int;
        let sxc = sum_xc(w, x0);
        let sy = sum_y(w);
        let sxx = sum_xx(w, x0);
        let sxy = sum_xy(w, x0);
        let var_n = n * sxx - sxc * sxc;
        let cov_n = n * sxy - sxc * sy;
        if var_n <= 0 {
            (0, round_div_spec(sy, n))
        } else {
            (
                round_div_spec(1_000_000 * cov_n, var_n),
                round_div_spec(sy * var_n - cov_n * (sxc + n * x0), n * var_n),
            )
        }
    }
}

/// The regression's full-precision prediction at wall time `t`, as a single
/// rounded rational (micro-beats). Meaningful for windows of two or more
/// samples.
pub open spec fn spec_predicted(w: Seq<(i64, i64)>, t: int) -> int {
    let x0 = w[0].0 as int;
    let n = w.len() as int;
    let sxc = sum_xc(w, x0);
    let sy = sum_y(w);
    let sxx = sum_xx(w, x0);
    let sxy = sum_xy(w, x0);
    let var_n = n * sxx - sxc * sxc;
    let cov_n = n * sxy - sxc * sy;
    if var_n <= 0 {
        round_div_spec(sy, n)
    } else {
        round_div_spec(cov_n * (n * (t - x0) - sxc) + sy * var_n, n * var_n)
    }
}

/// The prediction clamped to a sane beat range, so every later conversion
/// stays in machine bounds.
pub open spec fn spec_predicted_clamped(w: Seq<(i64, i64)>, t: int) -> int {
    let p = spec_predicted(w, t);
    if p > PREDICTED_BEAT_CLAMP {
        PREDICTED_BEAT_CLAMP as int
    } else if p < -PREDICTED_BEAT_CLAMP {
        -(PREDICTED_BEAT_CLAMP as int)
    } else {
        p
    }
}

/// The user audio offset converted to micro-beats at the given tempo:
/// `offset_ms * bpm / 60_000` beats, in micro-units.
pub open spec fn spec_offset_ubeats(offset_ms: int, bpm_milli: int) -> int {
    round_div_spec(offset_ms * bpm_milli, 60)
}

/// The raw clock reading plus the user offset: what the conductor treats as
/// the audio's current beat.
pub open spec fn spec_audio_beats(raw_clock_beats: int, offset_ms: int, bpm_milli: int) -> int {
    raw_clock_beats + spec_offset_ubeats(offset_ms, bpm_milli)
}

/// A sample appended to the window, evicting the oldest when full.
pub open spec fn spec_push_window(w: Seq<(i64, i64)>, x: i64, y: i64) -> Seq<(i64, i64)> {
    if w.len() >= MAX_SAMPLES {
        w.subrange(1, w.len() as int).push((x, y))
    } else {
        w.push((x, y))
    }
}

/// Wall-time span covered by the window.
pub open spec fn spec_window_span(w: Seq<(i64, i64)>) -> int {
    w.last().0 - w[0].0
}

/// Slope seeded from the nominal tempo: `bpm / 60` beats per second, in
/// micro-units.
pub open spec fn spec_seed_slope(bpm_milli: int) -> int {
    round_div_spec(bpm_milli * 1_000_000, 60_000)
}

/// Intercept seeded so the line passes through `(t, ab)`.
pub open spec fn spec_seed_intercept(ab: int, t: int, bpm_milli: int) -> int {
    ab - round_div_spec(spec_seed_slope(bpm_milli) * t, 1_000_000)
}

/// Whether the prediction has drifted past the threshold from the raw audio
/// beat, measured in time at the given tempo.
pub open spec fn spec_drift_exceeded(pred: int, ab: int, bpm_milli: int) -> bool {
    let diff = if pred >= ab {
        pred - ab
    } else {
        ab - pred
    };
    round_div_spec(diff * 60_000, bpm_milli) > DRIFT_THRESHOLD_US
}

/// The drift-correcting beat clock for one song.
pub struct SongConductor {
    /// Monotone beat position (micro-beats), except across a hard resync.
    pub current_beat: i64,
    /// Current tempo, milli-BPM.
    pub bpm_milli: u32,
    /// Whether the conductor has consumed at least one clock reading.
    pub playing: bool,
    /// Rolling `(wall_time_us, audio_micro_beats)` window.
    pub time_samples: Vec<(i64, i64)>,
    /// Latest regression slope (micro-beats per second).
    pub slope_micro: i128,
    /// Latest regression intercept (micro-beats).
    pub intercept_micro: i128,
    /// Pending tempo changes, consumed in order.
    pub timing_points: Vec<TimingPoint>,
    /// Consecutive steps the drift threshold has been exceeded.
    pub drift_frames: u32,
}

impl SongConductor {
    /// Structural invariant: the window is within capacity and every sample
    /// and the tempo are within the ranges the fixed-point arithmetic needs.
    pub open spec fn wf(self) -> bool {
        &&& self.time_samples@.len() <= MAX_SAMPLES
        &&& forall|i: int|
            0 <= i < self.time_samples@.len() ==> {
                &&& 0 <= (#[trigger] self.time_samples@[i]).0 <= MAX_SAMPLE_ABS
                &&& -MAX_SAMPLE_ABS <= self.time_samples@[i].1 <= MAX_SAMPLE_ABS
            }
        &&& 1 <= self.bpm_milli <= 1_000_000
        &&& forall|i: int|
            0 <= i < self.timing_points@.len() ==> 1 <= (#[trigger] self.timing_points@[i]).bpm_milli
                <= 1_000_000
        &&& self.drift_frames <= DRIFT_FRAME_LIMIT
        &&& -PREDICTED_BEAT_CLAMP <= self.current_beat <= PREDICTED_BEAT_CLAMP
    }

    /// A conductor at beat zero with the given tempo and an empty window.
    pub fn new(bpm_milli: u32) -> (r: SongConductor)
        requires
            1 <= bpm_milli <= 1_000_000,
        ensures
            r.wf(),
            r.current_beat == 0,
            r.bpm_milli == bpm_milli,
            !r.playing,
            r.time_samples@.len() == 0,
            r.timing_points@.len() == 0,
            r.drift_frames == 0,
            r.slope_micro == spec_seed_slope(bpm_milli as int),
            r.intercept_micro == 0,
    {
        let slope = round_div_i128(bpm_milli as i128 * 1_000_000, 60_000);
        SongConductor {
            current_beat: 0,
            bpm_milli,
            playing: false,
            time_samples: Vec::new(),
            slope_micro: slope,
            intercept_micro: 0,
            timing_points: Vec::new(),
            drift_frames: 0,
        }
    }
}

/// Centered sums over the sample window: `(sum_xc, sum_y, sum_xx, sum_xy)`
/// with x-values centered on the first sample.
fn window_sums(samples: &Vec<(i64, i64)>) -> (r: (i128, i128, i128, i128))
    requires
        1 <= samples@.len() <= MAX_SAMPLES,
        forall|i: int|
            0 <= i < samples@.len() ==> {
                &&& 0 <= (#[trigger] samples@[i]).0 <= MAX_SAMPLE_ABS
                &&& -MAX_SAMPLE_ABS <= samples@[i].1 <= MAX_SAMPLE_ABS
            },
    ensures
        r.0 == sum_xc(samples@, samples@[0].0 as int),
        r.1 == sum_y(samples@),
        r.2 == sum_xx(samples@, samples@[0].0 as int),
        r.3 == sum_xy(samples@, samples@[0].0 as int),
        -1_500_000_000_000 <= r.0 <= 1_500_000_000_000,
        -750_000_000_000 <= r.1 <= 750_000_000_000,
        0 <= r.2 <= 150_000_000_000_000_000_000_000,
        -75_000_000_000_000_000_000_000 <= r.3 <= 75_000_000_000_000_000_000_000,
{
    let x0 = samples[0].0;
    let n = samples.len();
    let mut sxc: i128 = 0;
    let mut sy: i128 = 0;
    let mut sxx: i128 = 0;
    let mut sxy: i128 = 0;
    let mut i: usize = 0;
    while i < n
        invariant
            n == samples@.len(),
            1 <= n <= MAX_SAMPLES,
            0 <= i <= n,
            x0 == samples@[0].0,
            0 <= x0 <= MAX_SAMPLE_ABS,
            forall|k: int|
                0 <= k < samples@.len() ==> {
                    &&& 0 <= (#[trigger] samples@[k]).0 <= MAX_SAMPLE_ABS
                    &&& -MAX_SAMPLE_ABS <= samples@[k].1 <= MAX_SAMPLE_ABS
                },
            sxc == sum_xc(samples@.take(i as int), x0 as int),
            sy == sum_y(samples@.take(i as int)),
            sxx == sum_xx(samples@.take(i as int), x0 as int),
            sxy == sum_xy(samples@.take(i as int), x0 as int),
            -(i * 100_000_000_000) <= sxc <= i * 100_000_000_000,
            -(i * 50_000_000_000) <= sy <= i * 50_000_000_000,
            0 <= sxx <= i * 10_000_000_000_000_000_000_000,
            -(i * 5_000_000_000_000_000_000_000) <= sxy <= i * 5_000_000_000_000_000_000_000,
        decreases n - i,
    {
        let p = samples[i];
        let xc: i128 = p.0 as i128 - x0 as i128;
        let yv: i128 = p.1 as i128;
        proof {
            lemma_mul_abs_bound(xc as int, xc as int, 100_000_000_000, 100_000_000_000);
            lemma_mul_abs_bound(xc as int, yv as int, 100_000_000_000, 50_000_000_000);
            assert((xc as int) * (xc as int) >= 0) by (nonlinear_arith);
            assert(samples@.take(i + 1).drop_last() =~= samples@.take(i as int));
            assert(samples@.take(i + 1).last() == samples@[i as int]);
        }
        sxc = sxc + xc;
        sy = sy + yv;
        sxx = sxx + xc * xc;
        sxy = sxy + xc * yv;
        i = i + 1;
    }
    proof {
        assert(samples@.take(n as int) =~= samples@);
    }
    (sxc, sy, sxx, sxy)
}

/// Fit `beat = slope * time + intercept` through the sample window, with
/// x-values centered on the window's first sample.
pub fn linear_regression(samples: &Vec<(i64, i64)>) -> (r: (i128, i128))
    requires
        samples@.len() <= MAX_SAMPLES,
        forall|i: int|
            0 <= i < samples@.len() ==> {
                &&& 0 <= (#[trigger] samples@[i]).0 <= MAX_SAMPLE_ABS
                &&& -MAX_SAMPLE_ABS <= samples@[i].1 <= MAX_SAMPLE_ABS
            },
    ensures
        r.0 == spec_regression(samples@).0,
        r.1 == spec_regression(samples@).1,
{
    if samples.len() == 0 {
        return (0, 0);
    }
    if samples.len() == 1 {
        let p = samples[0];
        if p.0 == 0 {
            return (0, p.1 as i128);
        } else {
            let slope = round_div_i128(1_000_000 * p.1 as i128, p.0 as i128);
            return (slope, 0);
        }
    }
    let (sxc, sy, sxx, sxy) = window_sums(samples);
    let n: i128 = samples.len() as i128;
    proof {
        lemma_mul_abs_bound(n as int, sxx as int, 15, 150_000_000_000_000_000_000_000);
        lemma_mul_abs_bound(sxc as int, sxc as int, 1_500_000_000_000, 1_500_000_000_000);
        lemma_mul_abs_bound(n as int, sxy as int, 15, 75_000_000_000_000_000_000_000);
        lemma_mul_abs_bound(sxc as int, sy as int, 1_500_000_000_000, 750_000_000_000);
    }
    let var_n: i128 = n * sxx - sxc * sxc;
    let cov_n: i128 = n * sxy - sxc * sy;
    if var_n <= 0 {
        let mean = round_div_i128(sy, n);
        (0, mean)
    } else {
        let slope = round_div_i128(1_000_000 * cov_n, var_n);
        let x0: i128 = samples[0].0 as i128;
        proof {
            lemma_mul_abs_bound(
                sy as int,
                var_n as int,
                750_000_000_000,
                4_500_000_000_000_000_000_000_000,
            );
            lemma_mul_abs_bound(n as int, x0 as int, 15, 50_000_000_000);
            lemma_mul_abs_bound(
                cov_n as int,
                (sxc + n * x0) as int,
                3_375_000_000_000_000_000_000_000,
                2_250_000_000_000,
            );
            lemma_mul_abs_bound(
                n as int,
                var_n as int,
                15,
                4_500_000_000_000_000_000_000_000,
            );
        }
        proof {
            assert((n as int) * (var_n as int) > 0) by (nonlinear_arith)
                requires
                    n >= 2,
                    var_n > 0,
            ;
        }
        let intercept = round_div_i128(sy * var_n - cov_n * (sxc + n * x0), n * var_n);
        (slope, intercept)
    }
}

impl SongConductor {
    /// One conductor step. `game_time_us` is the wall clock (microseconds),
    /// `raw_clock_beats` the audio clock reading (micro-beats), and
    /// `audio_offset_ms` the user's audio offset (milliseconds, positive
    /// shifting beats forward).
    ///
    /// The reported beat never decreases, with one exception: a hard resync
    /// forces it to the raw audio beat, which may lie behind it.
    pub fn advance(&mut self, game_time_us: i64, raw_clock_beats: i64, audio_offset_ms: i64)
        requires
            old(self).wf(),
            0 <= game_time_us <= MAX_SAMPLE_ABS,
            -40_000_000_000 <= raw_clock_beats <= 40_000_000_000,
            -100_000 <= audio_offset_ms <= 100_000,
        ensures
            final(self).wf(),
            final(self).playing,
            // Monotonic beat, except across a hard resync.
            final(self).current_beat >= old(self).current_beat || (final(self).drift_frames == 0
                && final(self).current_beat == spec_audio_beats(
                raw_clock_beats as int,
                audio_offset_ms as int,
                old(self).bpm_milli as int,
            )),
            ({
                let bpm = old(self).bpm_milli as int;
                let ab = spec_audio_beats(raw_clock_beats as int, audio_offset_ms as int, bpm);
                let w1 = spec_push_window(old(self).time_samples@, game_time_us, ab as i64);
                let warmup = spec_window_span(w1) < MIN_REGRESSION_SPAN_US;
                // Warm-up: track the audio clock directly, reseed the line.
                &&& (warmup ==> {
                    &&& final(self).time_samples@ == w1
                    &&& final(self).current_beat == if ab > old(self).current_beat {
                        ab
                    } else {
                        old(self).current_beat as int
                    }
                    &&& final(self).bpm_milli == old(self).bpm_milli
                    &&& final(self).timing_points@ == old(self).timing_points@
                    &&& final(self).drift_frames == old(self).drift_frames
                    &&& final(self).slope_micro == spec_seed_slope(bpm)
                    &&& final(self).intercept_micro == spec_seed_intercept(
                        ab,
                        game_time_us as int,
                        bpm,
                    )
                })
                // Regression step.
                &&& (!warmup ==> {
                    let pred = spec_predicted_clamped(w1, game_time_us as int);
                    let exceeded = spec_drift_exceeded(pred, ab, bpm);
                    let resync = exceeded && old(self).drift_frames + 1 > DRIFT_FRAME_LIMIT;
                    let cb2 = if pred > old(self).current_beat {
                        pred
                    } else {
                        old(self).current_beat as int
                    };
                    &&& (resync ==> {
                        &&& final(self).current_beat == ab
                        &&& final(self).drift_frames == 0
                        &&& final(self).time_samples@ == seq![(game_time_us, ab as i64)]
                        &&& final(self).bpm_milli == old(self).bpm_milli
                        &&& final(self).timing_points@ == old(self).timing_points@
                        &&& final(self).slope_micro == spec_seed_slope(bpm)
                        &&& final(self).intercept_micro == spec_seed_intercept(
                            ab,
                            game_time_us as int,
                            bpm,
                        )
                    })
                    &&& (!resync ==> {
                        &&& final(self).current_beat == cb2
                        &&& final(self).drift_frames == if exceeded {
                            old(self).drift_frames + 1
                        } else {
                            0int
                        }
                        &&& {
                            let advance_tp = old(self).timing_points@.len() > 0 && cb2
                                >= old(self).timing_points@[0].beat;
                            &&& (advance_tp ==> {
                                let tp = old(self).timing_points@[0];
                                &&& final(self).bpm_milli == tp.bpm_milli
                                &&& final(self).timing_points@ == old(
                                    self,
                                ).timing_points@.subrange(1, old(self).timing_points@.len() as int)
                                &&& final(self).time_samples@ == seq![(game_time_us, ab as i64)]
                                &&& final(self).slope_micro == spec_seed_slope(tp.bpm_milli as int)
                                &&& final(self).intercept_micro == spec_seed_intercept(
                                    ab,
                                    game_time_us as int,
                                    tp.bpm_milli as int,
                                )
                            })
                            &&& (!advance_tp ==> {
                                &&& final(self).bpm_milli == old(self).bpm_milli
                                &&& final(self).timing_points@ == old(self).timing_points@
                                &&& final(self).time_samples@ == w1
                                &&& final(self).slope_micro == spec_regression(w1).0
                                &&& final(self).intercept_micro == spec_regression(w1).1
                            })
                        }
                    })
                })
            }),
    {
        self.playing = true;
        let bpm = self.bpm_milli;

        // Audio offset, micro-beats at the current tempo.
        proof {
            lemma_mul_abs_bound(audio_offset_ms as int, bpm as int, 100_000, 1_000_000);
        }
        let offset_wide: i128 = audio_offset_ms as i128 * bpm as i128;
        proof {
            if offset_wide >= 0 {
                crate::fixed::lemma_round_div_le(offset_wide as int, 60, 1_700_000_000);
            } else {
                crate::fixed::lemma_round_div_le(-(offset_wide as int), 60, 1_700_000_000);
            }
        }
        let offset_ub: i64 = round_div_i128(offset_wide, 60) as i64;
        let audio_beats: i64 = raw_clock_beats + offset_ub;

        // Push into the rolling window.
        if self.time_samples.len() >= MAX_SAMPLES {
            self.time_samples.remove(0);
        }
        self.time_samples.push((game_time_us, audio_beats));
        let ghost w1 = self.time_samples@;

        // Warm-up: not enough temporal spread for a trustworthy regression.
        let x_span = game_time_us - self.time_samples[0].0;
        if x_span < MIN_REGRESSION_SPAN_US {
            if audio_beats > self.current_beat {
                self.current_beat = audio_beats;
            }
            let (sl, ic) = seed_line(audio_beats, game_time_us, bpm);
            self.slope_micro = sl;
            self.intercept_micro = ic;
            return ;
        }

        // The window now spans real time, so it holds at least two samples.
        proof {
            if w1.len() < 2 {
                assert(w1[0] == (game_time_us, audio_beats));
            }
        }

        let (sxc, sy, sxx, sxy) = window_sums(&self.time_samples);
        let n: i128 = self.time_samples.len() as i128;
        let x0: i128 = self.time_samples[0].0 as i128;
        proof {
            lemma_mul_abs_bound(n as int, sxx as int, 15, 150_000_000_000_000_000_000_000);
            lemma_mul_abs_bound(sxc as int, sxc as int, 1_500_000_000_000, 1_500_000_000_000);
            lemma_mul_abs_bound(n as int, sxy as int, 15, 75_000_000_000_000_000_000_000);
            lemma_mul_abs_bound(sxc as int, sy as int, 1_500_000_000_000, 750_000_000_000);
        }
        let var_n: i128 = n * sxx - sxc * sxc;
        let cov_n: i128 = n * sxy - sxc * sy;

        // Slope and intercept, for observation; the prediction below is
        // computed as one full-precision rational.
        let predicted_raw: i128;
        if var_n <= 0 {
            self.slope_micro = 0;
            self.intercept_micro = round_div_i128(sy, n);
            predicted_raw = self.intercept_micro;
        } else {
            proof {
                lemma_mul_abs_bound(
                    sy as int,
                    var_n as int,
                    750_000_000_000,
                    4_500_000_000_000_000_000_000_000,
                );
                lemma_mul_abs_bound(n as int, x0 as int, 15, 50_000_000_000);
                lemma_mul_abs_bound(
                    cov_n as int,
                    (sxc + n * x0) as int,
                    3_375_000_000_000_000_000_000_000,
                    2_250_000_000_000,
                );
                lemma_mul_abs_bound(
                    n as int,
                    var_n as int,
                    15,
                    4_500_000_000_000_000_000_000_000,
                );
                lemma_mul_abs_bound(
                    n as int,
                    (game_time_us as i128 - x0) as int,
                    15,
                    50_000_000_000,
                );
                lemma_mul_abs_bound(
                    cov_n as int,
                    (n * (game_time_us as i128 - x0) - sxc) as int,
                    3_375_000_000_000_000_000_000_000,
                    2_250_000_000_000,
                );
            }
            proof {
                assert((n as int) * (var_n as int) > 0) by (nonlinear_arith)
                    requires
                        n >= 2,
                        var_n > 0,
                ;
            }
            self.slope_micro = round_div_i128(1_000_000 * cov_n, var_n);
            self.intercept_micro = round_div_i128(sy * var_n - cov_n * (sxc + n * x0), n * var_n);
            predicted_raw = round_div_i128(
                cov_n * (n * (game_time_us as i128 - x0) - sxc) + sy * var_n,
                n * var_n,
            );
        }
        let predicted: i64 = if predicted_raw > PREDICTED_BEAT_CLAMP as i128 {
            PREDICTED_BEAT_CLAMP
        } else if predicted_raw < -(PREDICTED_BEAT_CLAMP as i128) {
            -PREDICTED_BEAT_CLAMP
        } else {
            predicted_raw as i64
        };

        // Drift check: prediction vs raw audio beats, in time units.
        let diff: i64 = if predicted >= audio_beats {
            predicted - audio_beats
        } else {
            audio_beats - predicted
        };
        let drift_us: i128 = round_div_i128(diff as i128 * 60_000, bpm as i128);
        if drift_us > DRIFT_THRESHOLD_US as i128 {
            self.drift_frames = self.drift_frames + 1;
            if self.drift_frames > DRIFT_FRAME_LIMIT {
                // Hard resync: reseed the window and snap to the audio clock.
                self.time_samples.clear();
                self.time_samples.push((game_time_us, audio_beats));
                let (sl, ic) = seed_line(audio_beats, game_time_us, bpm);
                self.slope_micro = sl;
                self.intercept_micro = ic;
                self.drift_frames = 0;
                self.current_beat = audio_beats;
                return ;
            }
        } else {
            self.drift_frames = 0;
        }

        // Monotonicity guarantee.
        if predicted > self.current_beat {
            self.current_beat = predicted;
        }

        // Advance timing points across a BPM-change boundary.
        if self.timing_points.len() > 0 {
            let tp = self.timing_points[0];
            if self.current_beat >= tp.beat {
                self.timing_points.remove(0);
                self.bpm_milli = tp.bpm_milli;
                self.time_samples.clear();
                self.time_samples.push((game_time_us, audio_beats));
                let (sl, ic) = seed_line(audio_beats, game_time_us, tp.bpm_milli);
                self.slope_micro = sl;
                self.intercept_micro = ic;
            }
        }
    }
}

/// Seed the regression line from the nominal tempo so it passes through
/// `(t, ab)`.
fn seed_line(ab: i64, t: i64, bpm_milli: u32) -> (r: (i128, i128))
    requires
        1 <= bpm_milli <= 1_000_000,
        0 <= t <= MAX_SAMPLE_ABS,
        -MAX_SAMPLE_ABS <= ab <= MAX_SAMPLE_ABS,
    ensures
        r.0 == spec_seed_slope(bpm_milli as int),
        r.1 == spec_seed_intercept(ab as int, t as int, bpm_milli as int),
{
    let slope = round_div_i128(bpm_milli as i128 * 1_000_000, 60_000);
    proof {
        crate::fixed::lemma_round_div_le(
            (bpm_milli as i128 * 1_000_000) as int,
            60_000,
            16_666_667,
        );
        crate::fixed::lemma_round_div_nonneg((bpm_milli as i128 * 1_000_000) as int, 60_000);
        lemma_mul_abs_bound(slope as int, t as int, 16_666_667, 50_000_000_000);
    }
    let shift = round_div_i128(slope * t as i128, 1_000_000);
    let intercept = ab as i128 - shift;
    (slope, intercept)
}

} // verus!
