//! Beat tracking: an onset-strength envelope, autocorrelation tempo
//! estimation with a preference centered on 120 BPM, and greedy beat
//! placement that trades onset strength against deviation from the expected
//! period.

use vstd::prelude::*;

verus! {

use crate::fixed::{round_div_spec, round_div_i128, round_div_u64};
use crate::judgment::micros_to_beats_spec;
use crate::onset::OnsetEvent;
use crate::stft::{Spectrogram, spec_sum, MAX_FRAMES};

/// Largest beat time the grid may carry, microseconds.
pub const MAX_BEAT_TIME_US: i64 = 1_000_000_000_000;

/// Result of beat tracking: beat positions (microseconds) and the estimated
/// tempo (milli-BPM).
#[derive(Debug)]
pub struct BeatGrid {
    /// Beat positions in microseconds, nondecreasing.
    pub beats: Vec<i64>,
    /// Estimated tempo, milli-BPM.
    pub bpm_milli: u32,
}

/// Index of the first element of `beats[from..]` that `t` does not exceed,
/// or the length when every one is passed.
pub open spec fn spec_first_not_before(beats: Seq<i64>, t: int, from: int) -> int
    decreases beats.len() - from,
{
    if from < 0 || from >= beats.len() {
        beats.len() as int
    } else if t <= beats[from] {
        from
    } else {
        spec_first_not_before(beats, t, from + 1)
    }
}

/// A time (microseconds) mapped to a beat position (micro-beats): linear
/// interpolation between surrounding grid beats, extrapolation at the
/// configured tempo beyond either end.
pub open spec fn spec_time_to_beat(beats: Seq<i64>, bpm_milli: int, t: int) -> int {
    if beats.len() == 0 {
        0
    } else if t <= beats[0] {
        micros_to_beats_spec(t - beats[0], bpm_milli)
    } else {
        let i = spec_first_not_before(beats, t, 1);
        if i < beats.len() {
            let t0 = beats[i - 1] as int;
            let t1 = beats[i] as int;
            let frac = if t1 == t0 {
                0
            } else {
                round_div_spec((t - t0) * 1_000_000, t1 - t0)
            };
            (i - 1) * 1_000_000 + frac
        } else {
            (beats.len() - 1) * 1_000_000 + micros_to_beats_spec(
                t - beats.last(),
                bpm_milli,
            )
        }
    }
}

impl BeatGrid {
    /// Grid invariant: nondecreasing nonnegative beat times in range, sane
    /// tempo.
    pub open spec fn wf(self) -> bool {
        &&& self.beats@.len() <= MAX_FRAMES
        &&& forall|i: int|
            0 <= i < self.beats@.len() ==> 0 <= #[trigger] self.beats@[i] <= MAX_BEAT_TIME_US
        &&& forall|i: int, j: int|
            0 <= i <= j < self.beats@.len() ==> #[trigger] self.beats@[i] <= #[trigger] self.beats@[j]
        &&& 1 <= self.bpm_milli <= 1_000_000
    }

    /// Convert a time (microseconds) to a beat position (micro-beats).
    pub fn time_to_beat(&self, time_us: i64) -> (r: i64)
        requires
            self.wf(),
            -1_000_000_000_000 <= time_us <= 1_000_000_000_000,
        ensures
            r == spec_time_to_beat(self.beats@, self.bpm_milli as int, time_us as int),
            -200_000_000_000_000_000 <= r <= 200_000_000_000_000_000,
    {
        let n = self.beats.len();
        if n == 0 {
            return 0;
        }
        if time_us <= self.beats[0] {
            return crate::judgment::micros_to_beats(time_us - self.beats[0], self.bpm_milli);
        }
        let mut i: usize = 1;
        while i < n && self.beats[i] < time_us
            invariant
                n == self.beats@.len(),
                1 <= i <= n,
                self.wf(),
                -1_000_000_000_000 <= time_us <= 1_000_000_000_000,
                self.beats@[i - 1] < time_us,
                spec_first_not_before(self.beats@, time_us as int, 1) == spec_first_not_before(
                    self.beats@,
                    time_us as int,
                    i as int,
                ),
            decreases n - i,
        {
            i = i + 1;
        }
        if i < n {
            let t0 = self.beats[i - 1];
            let t1 = self.beats[i];
            let frac: i64 = if t1 == t0 {
                0
            } else {
                proof {
                    crate::fixed::lemma_mul_abs_bound(
                        (time_us - t0) as int,
                        1_000_000,
                        2_000_000_000_000,
                        1_000_000,
                    );
                    crate::fixed::lemma_round_div_le(
                        ((time_us - t0) as i128 * 1_000_000) as int,
                        (t1 - t0) as int,
                        1_000_000,
                    );
                    crate::fixed::lemma_round_div_nonneg(
                        ((time_us - t0) as i128 * 1_000_000) as int,
                        (t1 - t0) as int,
                    );
                }
                round_div_i128((time_us - t0) as i128 * 1_000_000, (t1 - t0) as i128) as i64
            };
            ((i - 1) as i64) * 1_000_000 + frac
        } else {
            let last = self.beats[n - 1];
            let tail = crate::judgment::micros_to_beats(time_us - last, self.bpm_milli);
            ((n - 1) as i64) * 1_000_000 + tail
        }
    }

    /// Time covered by the grid, microseconds.
    pub fn duration_micros(&self) -> (r: i64)
        requires
            self.wf(),
        ensures
            self.beats@.len() == 0 ==> r == 0,
            self.beats@.len() > 0 ==> r == self.beats@.last() - self.beats@[0],
    {
        let n = self.beats.len();
        if n == 0 {
            return 0;
        }
        self.beats[n - 1] - self.beats[0]
    }

    /// Number of whole beats spanned by the grid, micro-beats.
    pub fn total_beats(&self) -> (r: i64)
        requires
            self.wf(),
        ensures
            self.beats@.len() == 0 ==> r == 0,
            self.beats@.len() > 0 ==> r == (self.beats@.len() - 1) * 1_000_000,
    {
        let n = self.beats.len();
        if n == 0 {
            return 0;
        }
        ((n - 1) as i64) * 1_000_000
    }
}

/// The onset-strength envelope before smoothing: each onset's strength at
/// its frame, written in order.
pub open spec fn spec_place_onsets(base: Seq<u32>, onsets: Seq<OnsetEvent>) -> Seq<u32>
    decreases onsets.len(),
{
    if onsets.len() == 0 {
        base
    } else {
        let prev = spec_place_onsets(base, onsets.drop_last());
        let o = onsets.last();
        if (o.frame as int) < prev.len() {
            prev.update(o.frame as int, o.strength)
        } else {
            prev
        }
    }
}

/// Moving-average smoothing of an envelope with an odd kernel.
pub open spec fn spec_smooth(data: Seq<u32>, kernel: int) -> Seq<u32> {
    Seq::new(
        data.len(),
        |i: int|
            {
                let half = kernel / 2;
                let ws = if i - half > 0 {
                    i - half
                } else {
                    0
                };
                let we = if i + half + 1 < data.len() {
                    i + half + 1
                } else {
                    data.len() as int
                };
                round_div_spec(spec_sum(data.subrange(ws, we)), we - ws) as u32
            },
    )
}

/// The smoothing kernel length: about 50 ms of frames, at least 3, odd.
pub open spec fn spec_kernel(s: Spectrogram) -> int {
    let k0 = s.sample_rate as int / (20 * s.hop_size as int);
    let k1 = if k0 < 3 {
        3
    } else {
        k0
    };
    if k1 % 2 == 0 {
        k1 + 1
    } else {
        k1
    }
}

/// The smoothed onset-strength envelope of a spectrogram: one value per
/// frame (micro-units).
pub open spec fn spec_onset_envelope(s: Spectrogram, onsets: Seq<OnsetEvent>) -> Seq<u32> {
    spec_smooth(
        spec_place_onsets(Seq::new(s.frames@.len(), |i: int| 0u32), onsets),
        spec_kernel(s),
    )
}

/// Build the smoothed onset-strength envelope: onset strengths placed at
/// their frames, then a ~50 ms moving average.
pub fn build_onset_envelope(s: &Spectrogram, onsets: &Vec<OnsetEvent>) -> (r: Vec<u32>)
    requires
        s.wf(),
        forall|k: int| 0 <= k < onsets@.len() ==> (#[trigger] onsets@[k]).strength <= 1_000_000,
    ensures
        r@ == spec_onset_envelope(*s, onsets@),
        r@.len() == s.frames@.len(),
        forall|k: int| 0 <= k < r@.len() ==> #[trigger] r@[k] <= 1_000_000,
{
    let n = s.frames.len();
    let mut env: Vec<u32> = Vec::new();
    let mut i: usize = 0;
    while i < n
        invariant
            0 <= i <= n,
            env@.len() == i,
            forall|k: int| 0 <= k < i ==> env@[k] == 0,
        decreases n - i,
    {
        env.push(0);
        i = i + 1;
    }
    proof {
        assert(env@ =~= Seq::new(s.frames@.len() as nat, |i: int| 0u32));
    }
    let mut i: usize = 0;
    while i < onsets.len()
        invariant
            0 <= i <= onsets@.len(),
            forall|k: int| 0 <= k < onsets@.len() ==> (#[trigger] onsets@[k]).strength
                <= 1_000_000,
            env@.len() == n == s.frames@.len(),
            env@ == spec_place_onsets(
                Seq::new(s.frames@.len() as nat, |i: int| 0u32),
                onsets@.take(i as int),
            ),
            forall|k: int| 0 <= k < env@.len() ==> #[trigger] env@[k] <= 1_000_000,
        decreases onsets@.len() - i,
    {
        proof {
            assert(onsets@.take(i + 1).drop_last() =~= onsets@.take(i as int));
            assert(onsets@.take(i + 1).last() == onsets@[i as int]);
        }
        let o = onsets[i];
        if o.frame < env.len() {
            env.set(o.frame, o.strength);
        }
        i = i + 1;
    }
    proof {
        assert(onsets@.take(onsets@.len() as int) =~= onsets@);
    }

    // Smoothing kernel: ~50 ms of frames, at least 3, odd.
    let k0 = (s.sample_rate as usize) / (20 * s.hop_size);
    let k1 = if k0 < 3 {
        3
    } else {
        k0
    };
    let kernel = if k1 % 2 == 0 {
        k1 + 1
    } else {
        k1
    };
    proof {
        vstd::arithmetic::div_mod::lemma_div_nonincreasing(
            s.sample_rate as int,
            20 * s.hop_size as int,
        );
        vstd::arithmetic::div_mod::lemma_div_pos_is_pos(
            s.sample_rate as int,
            20 * s.hop_size as int,
        );
    }
    let half = kernel / 2;

    let mut out: Vec<u32> = Vec::new();
    let mut i: usize = 0;
    while i < n
        invariant
            0 <= i <= n,
            n == env@.len() == s.frames@.len(),
            n <= MAX_FRAMES,
            kernel == spec_kernel(*s),
            3 <= kernel <= 1_000_001,
            half == kernel / 2,
            forall|k: int| 0 <= k < env@.len() ==> #[trigger] env@[k] <= 1_000_000,
            out@.len() == i,
            forall|k: int| 0 <= k < i ==> out@[k] == spec_smooth(env@, kernel as int)[k],
            forall|k: int| 0 <= k < i ==> #[trigger] out@[k] <= 1_000_000,
        decreases n - i,
    {
        let ws: usize = if i > half {
            i - half
        } else {
            0
        };
        let we: usize = if i + half + 1 < n {
            i + half + 1
        } else {
            n
        };
        let count: u64 = (we - ws) as u64;
        let total = crate::stft::sum_range(&env, ws, we);
        proof {
            lemma_sum_le_micro(env@.subrange(ws as int, we as int));
            crate::fixed::lemma_round_div_le(total as int, count as int, 1_000_000);
            vstd::arithmetic::div_mod::lemma_div_pos_is_pos(
                2 * (total as int) + count as int,
                2 * (count as int),
            );
        }
        let v: u64 = ((2 * total + count as u128) / (2 * count as u128)) as u64;
        out.push(v as u32);
        i = i + 1;
    }
    proof {
        assert(out@ =~= spec_smooth(env@, kernel as int));
    }
    out
}

/// Sum of envelope values times their value `lag` frames later, over the
/// first `cnt` positions.
pub open spec fn spec_sum_prod(env: Seq<u32>, lag: int, cnt: int) -> int
    decreases cnt,
{
    if cnt <= 0 {
        0
    } else {
        spec_sum_prod(env, lag, cnt - 1) + env[cnt - 1] * env[cnt - 1 + lag]
    }
}

/// Autocorrelation of the envelope at a lag: the mean product of the
/// envelope with itself shifted by `lag` frames.
pub open spec fn spec_correlation(env: Seq<u32>, lag: int) -> int {
    round_div_spec(spec_sum_prod(env, lag, env.len() - lag), env.len() - lag)
}

/// The tempo-preference weight of a tempo (micro-units): a rational
/// approximation of a Gaussian centered on 120 BPM with a 40 BPM deviation,
/// clamped far out in the tails.
pub open spec fn spec_tempo_weight(bpm_milli: int) -> int {
    let delta = bpm_milli - 120_000;
    let u0 = round_div_spec(delta * delta, 3_200);
    let u = if u0 > 100_000_000 {
        100_000_000
    } else {
        u0
    };
    let num = 1_000_000_000_000_000_000 - u * 500_000_000_000 + u * u * 100_000 - u * u * u / 120;
    let den = 1_000_000_000_000_000_000 + u * 500_000_000_000 + u * u * 100_000 + u * u * u / 120;
    round_div_spec(num * 1_000_000, den)
}

/// The tempo a lag corresponds to, milli-BPM.
pub open spec fn spec_lag_bpm(s: Spectrogram, lag: int) -> int {
    round_div_spec(s.sample_rate as int * 60_000, s.hop_size as int * lag)
}

/// The weighted autocorrelation score of a lag.
pub open spec fn spec_lag_score(s: Spectrogram, env: Seq<u32>, lag: int) -> int {
    spec_correlation(env, lag) * spec_tempo_weight(spec_lag_bpm(s, lag))
}

/// The best lag among `min_lag..=l`: highest score, earliest on ties.
pub open spec fn spec_best_lag(s: Spectrogram, env: Seq<u32>, min_lag: int, l: int) -> int
    decreases l - min_lag,
{
    if l <= min_lag {
        min_lag
    } else {
        let p = spec_best_lag(s, env, min_lag, l - 1);
        if spec_lag_score(s, env, l) > spec_lag_score(s, env, p) {
            l
        } else {
            p
        }
    }
}

/// The estimated tempo of an envelope, milli-BPM, rounded to the nearest
/// half BPM; 120 BPM when the envelope is too short to search.
pub open spec fn spec_estimate_tempo(s: Spectrogram, env: Seq<u32>) -> int {
    let min_lag0 = s.sample_rate as int * 3 / (s.hop_size as int * 10);
    let min_lag = if min_lag0 < 1 {
        1
    } else {
        min_lag0
    };
    let max_lag0 = s.sample_rate as int / s.hop_size as int;
    let max_lag = if max_lag0 > env.len() / 2 {
        env.len() as int / 2
    } else {
        max_lag0
    };
    if min_lag >= max_lag {
        120_000
    } else {
        let best = spec_best_lag(s, env, min_lag, max_lag);
        round_div_spec(spec_lag_bpm(s, best), 500) * 500
    }
}

/// A sum of micro-unit values is at most one micro-unit per element.
proof fn lemma_sum_le_micro(s: Seq<u32>)
    requires
        forall|k: int| 0 <= k < s.len() ==> #[trigger] s[k] <= 1_000_000,
    ensures
        0 <= spec_sum(s) <= s.len() * 1_000_000,
    decreases s.len(),
{
    if s.len() > 0 {
        assert(s.last() <= 1_000_000);
        assert forall|k: int| 0 <= k < s.drop_last().len() implies #[trigger] s.drop_last()[k]
            <= 1_000_000 by {
            assert(s.drop_last()[k] == s[k]);
        }
        lemma_sum_le_micro(s.drop_last());
    }
}

/// A sum of micro-unit products is at most one squared micro-unit per term.
proof fn lemma_sum_prod_le(env: Seq<u32>, lag: int, cnt: int)
    requires
        forall|k: int| 0 <= k < env.len() ==> #[trigger] env[k] <= 1_000_000,
        0 <= cnt,
        cnt + lag <= env.len(),
        0 <= lag,
    ensures
        0 <= spec_sum_prod(env, lag, cnt) <= cnt * 1_000_000_000_000,
    decreases cnt,
{
    if cnt > 0 {
        lemma_sum_prod_le(env, lag, cnt - 1);
        assert(env[cnt - 1] * env[cnt - 1 + lag] <= 1_000_000_000_000 && env[cnt - 1] * env[cnt - 1
            + lag] >= 0) by (nonlinear_arith)
            requires
                0 <= env[cnt - 1] <= 1_000_000,
                0 <= env[cnt - 1 + lag] <= 1_000_000,
        ;
    }
}

/// Estimate the tempo of a smoothed onset envelope by autocorrelation over
/// lags spanning 60-200 BPM, weighted by the 120-BPM preference, rounded to
/// the nearest half BPM and clamped to a sane range.
#[verifier::rlimit(100)]
pub fn estimate_tempo(s: &Spectrogram, env: &Vec<u32>) -> (r: u32)
    requires
        s.wf(),
        env@.len() <= MAX_FRAMES,
        forall|k: int| 0 <= k < env@.len() ==> #[trigger] env@[k] <= 1_000_000,
    ensures
        r == spec_clamped_tempo(spec_estimate_tempo(*s, env@)),
        1_000 <= r <= 1_000_000,
{
    let min_lag0: usize = ((s.sample_rate as u64 * 3) / (s.hop_size as u64 * 10)) as usize;
    let min_lag: usize = if min_lag0 < 1 {
        1
    } else {
        min_lag0
    };
    proof {
        vstd::arithmetic::div_mod::lemma_div_pos_is_pos(
            s.sample_rate as int * 3,
            s.hop_size as int * 10,
        );
        vstd::arithmetic::div_mod::lemma_div_nonincreasing(
            s.sample_rate as int * 3,
            s.hop_size as int * 10,
        );
    }
    let max_lag0: usize = (s.sample_rate as u64 / s.hop_size as u64) as usize;
    proof {
        vstd::arithmetic::div_mod::lemma_div_pos_is_pos(s.sample_rate as int, s.hop_size as int);
        vstd::arithmetic::div_mod::lemma_div_nonincreasing(s.sample_rate as int, s.hop_size as int);
    }
    let max_lag: usize = if max_lag0 > env.len() / 2 {
        env.len() / 2
    } else {
        max_lag0
    };
    if min_lag >= max_lag {
        return 120_000;
    }

    let mut best_lag: usize = min_lag;
    let mut best_score: i128 = lag_score(s, env, min_lag);
    let mut lag: usize = min_lag + 1;
    while lag <= max_lag
        invariant
            s.wf(),
            env@.len() <= MAX_FRAMES,
            forall|k: int| 0 <= k < env@.len() ==> #[trigger] env@[k] <= 1_000_000,
            1 <= min_lag < max_lag <= env@.len() / 2,
            min_lag + 1 <= lag <= max_lag + 1,
            min_lag <= best_lag < lag,
            best_lag == spec_best_lag(*s, env@, min_lag as int, lag - 1),
            best_score == spec_lag_score(*s, env@, best_lag as int),
        decreases max_lag + 1 - lag,
    {
        let sc = lag_score(s, env, lag);
        if sc > best_score {
            best_lag = lag;
            best_score = sc;
        }
        lag = lag + 1;
    }

    let bpm = lag_bpm(s, best_lag);
    let rounded: u64 = round_div_u64(bpm, 500) * 500;
    proof {
        crate::fixed::lemma_round_div_nonneg(bpm as int, 500);
    }
    if rounded < 1_000 {
        1_000
    } else if rounded > 1_000_000 {
        1_000_000
    } else {
        rounded as u32
    }
}

/// A tempo clamped to the range the conductor arithmetic supports.
pub open spec fn spec_clamped_tempo(bpm_milli: int) -> int {
    if bpm_milli < 1_000 {
        1_000
    } else if bpm_milli > 1_000_000 {
        1_000_000
    } else {
        bpm_milli
    }
}

/// Tempo of a lag, milli-BPM.
fn lag_bpm(s: &Spectrogram, lag: usize) -> (r: u64)
    requires
        s.wf(),
        1 <= lag <= MAX_FRAMES,
    ensures
        r == spec_lag_bpm(*s, lag as int),
        r <= 60_000_000_000_000,
{
    proof {
        crate::fixed::lemma_mul_abs_bound(s.hop_size as int, lag as int, 65_536, 10_000_000);
        assert(s.hop_size as int * lag as int >= 1) by (nonlinear_arith)
            requires
                s.hop_size >= 1,
                lag >= 1,
        ;
        crate::fixed::lemma_round_div_le(
            s.sample_rate as int * 60_000,
            s.hop_size as int * lag as int,
            60_000_000_000,
        );
        crate::fixed::lemma_round_div_nonneg(
            s.sample_rate as int * 60_000,
            s.hop_size as int * lag as int,
        );
        assert(s.sample_rate as int * 60_000 <= 60_000_000_000 * (s.hop_size as int
            * lag as int)) by (nonlinear_arith)
            requires
                1 <= s.sample_rate <= 1_000_000,
                s.hop_size as int * lag as int >= 1,
        ;
    }
    crate::fixed::round_div_i128(
        s.sample_rate as i128 * 60_000,
        s.hop_size as i128 * lag as i128,
    ) as u64
}

/// Weighted autocorrelation score of one lag.
fn lag_score(s: &Spectrogram, env: &Vec<u32>, lag: usize) -> (r: i128)
    requires
        s.wf(),
        env@.len() <= MAX_FRAMES,
        forall|k: int| 0 <= k < env@.len() ==> #[trigger] env@[k] <= 1_000_000,
        1 <= lag <= env@.len() / 2,
    ensures
        r == spec_lag_score(*s, env@, lag as int),
{
    let n = env.len();
    let cnt = n - lag;
    let mut total: u128 = 0;
    let mut i: usize = 0;
    while i < cnt
        invariant
            n == env@.len(),
            1 <= lag,
            cnt == n - lag,
            0 <= i <= cnt,
            forall|k: int| 0 <= k < env@.len() ==> #[trigger] env@[k] <= 1_000_000,
            total == spec_sum_prod(env@, lag as int, i as int),
            0 <= total <= i * 1_000_000_000_000,
        decreases cnt - i,
    {
        proof {
            assert(env@[i as int] * env@[i + lag] <= 1_000_000_000_000 && env@[i as int] * env@[i
                + lag] >= 0) by (nonlinear_arith)
                requires
                    0 <= env@[i as int] <= 1_000_000,
                    0 <= env@[i + lag] <= 1_000_000,
            ;
        }
        total = total + (env[i] as u128) * (env[i + lag] as u128);
        i = i + 1;
    }
    proof {
        vstd::arithmetic::div_mod::lemma_div_pos_is_pos(
            2 * (total as int) + cnt as int,
            2 * (cnt as int),
        );
        crate::fixed::lemma_round_div_le(total as int, cnt as int, 1_000_000_000_000);
    }
    let corr: u128 = (2 * total + cnt as u128) / (2 * cnt as u128);

    let bpm = lag_bpm(s, lag);
    let w = tempo_weight(bpm);
    proof {
        crate::fixed::lemma_mul_abs_bound(
            corr as int,
            w as int,
            1_000_000_000_000,
            1_000_000,
        );
    }
    (corr as i128) * w
}

/// The 120-BPM tempo-preference weight, micro-units.
fn tempo_weight(bpm_milli: u64) -> (r: i128)
    requires
        bpm_milli <= 60_000_000_000_000,
    ensures
        r == spec_tempo_weight(bpm_milli as int),
        -1_000_000 <= r <= 1_000_000,
{
    let delta: i128 = bpm_milli as i128 - 120_000;
    proof {
        crate::fixed::lemma_mul_abs_bound(
            delta as int,
            delta as int,
            60_000_000_000_000,
            60_000_000_000_000,
        );
        assert((delta as int) * (delta as int) >= 0) by (nonlinear_arith);
        crate::fixed::lemma_round_div_nonneg((delta as int) * (delta as int), 3_200);
    }
    let u0: i128 = crate::fixed::round_div_i128(delta * delta, 3_200);
    let u: i128 = if u0 > 100_000_000 {
        100_000_000
    } else {
        u0
    };
    proof {
        crate::fixed::lemma_mul_abs_bound(u as int, 500_000_000_000, 100_000_000, 500_000_000_000);
        crate::fixed::lemma_mul_abs_bound(u as int, u as int, 100_000_000, 100_000_000);
        crate::fixed::lemma_mul_abs_bound(
            (u * u) as int,
            100_000,
            10_000_000_000_000_000,
            100_000,
        );
        crate::fixed::lemma_mul_abs_bound(
            (u * u) as int,
            u as int,
            10_000_000_000_000_000,
            100_000_000,
        );
        vstd::arithmetic::div_mod::lemma_div_pos_is_pos((u * u * u) as int, 120);
        vstd::arithmetic::div_mod::lemma_div_nonincreasing((u * u * u) as int, 120);
        assert(u * u >= 0) by (nonlinear_arith);
        assert(u * u * u >= 0) by (nonlinear_arith)
            requires
                u >= 0,
        ;
    }
    let cube_term: i128 = u * u * u / 120;
    let num: i128 = 1_000_000_000_000_000_000 - u * 500_000_000_000 + u * u * 100_000 - cube_term;
    let den: i128 = 1_000_000_000_000_000_000 + u * 500_000_000_000 + u * u * 100_000 + cube_term;
    proof {
        if num >= 0 {
            crate::fixed::lemma_round_div_le((num as int) * 1_000_000, den as int, 1_000_000);
            crate::fixed::lemma_round_div_nonneg((num as int) * 1_000_000, den as int);
            assert((num as int) * 1_000_000 <= 1_000_000 * (den as int)) by (nonlinear_arith)
                requires
                    num <= den,
            ;
        } else {
            crate::fixed::lemma_round_div_le((-(num as int)) * 1_000_000, den as int, 1_000_000);
            crate::fixed::lemma_round_div_nonneg((-(num as int)) * 1_000_000, den as int);
            assert((-(num as int)) * 1_000_000 <= 1_000_000 * (den as int)) by (nonlinear_arith)
                requires
                    -num <= den,
            ;
            assert((-(num as int)) * 1_000_000 == -((num as int) * 1_000_000)) by (nonlinear_arith);
        }
    }
    crate::fixed::round_div_i128(num * 1_000_000, den)
}

/// Time of a frame in microseconds at the given geometry.
pub open spec fn spec_frame_us(frame: int, hop: int, rate: int) -> int {
    round_div_spec(frame * hop * 1_000_000, rate)
}

/// Time of a frame in microseconds.
fn frame_us(frame: usize, hop: usize, rate: u32) -> (r: i64)
    requires
        frame <= MAX_FRAMES,
        1 <= hop <= 65_536,
        hop <= rate <= 1_000_000,
    ensures
        r == spec_frame_us(frame as int, hop as int, rate as int),
        0 <= r <= 10_000_000_000_000,
{
    proof {
        crate::fixed::lemma_mul_abs_bound(frame as int, hop as int, 10_000_000, 65_536);
        assert((frame as int) * (hop as int) * 1_000_000 <= (frame as int * 1_000_000) * (
        rate as int)) by (nonlinear_arith)
            requires
                hop <= rate,
                frame >= 0,
                rate >= 1,
        ;
        crate::fixed::lemma_round_div_le(
            (frame as int) * (hop as int) * 1_000_000,
            rate as int,
            frame as int * 1_000_000,
        );
        crate::fixed::lemma_round_div_nonneg(
            (frame as int) * (hop as int) * 1_000_000,
            rate as int,
        );
    }
    round_div_u64(frame as u64 * hop as u64 * 1_000_000, rate as u64) as i64
}

/// The placement score of a candidate frame: onset strength minus a
/// quadratic penalty for deviating from the expected position.
pub open spec fn spec_frame_score(env: Seq<u32>, f: int, ef: int, pf: int) -> int {
    let dev = if f >= ef {
        f - ef
    } else {
        ef - f
    };
    env[f] - round_div_spec(2_000_000 * (dev * dev), pf * pf)
}

/// Best-scoring frame in `[ws, i)` around expected frame `ef` (earliest on
/// ties), seeded with the expected frame itself.
pub open spec fn spec_best_in_window(env: Seq<u32>, ws: int, i: int, ef: int, pf: int) -> (
    int,
    int,
)
    decreases i - ws,
{
    if i <= ws {
        (
            if ef < env.len() - 1 {
                ef
            } else {
                env.len() - 1
            },
            -1_000_000,
        )
    } else {
        let p = spec_best_in_window(env, ws, i - 1, ef, pf);
        let sc = spec_frame_score(env, i - 1, ef, pf);
        if sc > p.1 {
            (i - 1, sc)
        } else {
            p
        }
    }
}

/// The strongest envelope frame among the first `i` (earliest on ties).
pub open spec fn spec_anchor_upto(env: Seq<u32>, i: int) -> (int, int)
    decreases i,
{
    if i <= 0 {
        (0, 0)
    } else {
        let p = spec_anchor_upto(env, i - 1);
        if env[i - 1] > p.1 {
            (i - 1, env[i - 1] as int)
        } else {
            p
        }
    }
}

/// The beats placed after the anchor: each at the best-scoring frame within
/// a quarter-period window around its expected position, stopping at the end
/// of the envelope.
pub open spec fn spec_find_tail(
    env: Seq<u32>,
    pf: int,
    period_us: int,
    first_us: int,
    rate: int,
    hop: int,
    num_beats: int,
    idx: int,
) -> Seq<i64>
    decreases num_beats - idx,
{
    if idx >= num_beats {
        Seq::<i64>::empty()
    } else {
        let expected_us = first_us + idx * period_us;
        let ef = (expected_us * rate) / (hop * 1_000_000);
        if ef >= env.len() {
            Seq::<i64>::empty()
        } else {
            let radius = pf / 4;
            let ws = if ef - radius > 0 {
                ef - radius
            } else {
                0
            };
            let we = if ef + radius + 1 < env.len() {
                ef + radius + 1
            } else {
                env.len() as int
            };
            let bf = spec_best_in_window(env, ws, we, ef, pf).0;
            seq![spec_frame_us(bf, hop, rate) as i64] + spec_find_tail(
                env,
                pf,
                period_us,
                first_us,
                rate,
                hop,
                num_beats,
                idx + 1,
            )
        }
    }
}

/// Beat placement: anchor on the strongest envelope frame within the first
/// two periods, then place one beat per period at the best-scoring frame in
/// a quarter-period search window.
pub open spec fn spec_find_beats(
    env: Seq<u32>,
    bpm_milli: int,
    rate: int,
    hop: int,
    duration_us: int,
) -> Seq<i64> {
    let period_us = round_div_spec(60_000_000_000, bpm_milli);
    let pf0 = round_div_spec(rate * 60_000, hop * bpm_milli);
    let pf = if pf0 < 1 {
        1
    } else {
        pf0
    };
    let num_beats = duration_us / period_us + 1;
    if num_beats < 2 {
        seq![0i64]
    } else {
        let fe = if 2 * pf < env.len() {
            2 * pf
        } else {
            env.len() as int
        };
        let anchor = spec_anchor_upto(env, fe).0;
        let first_us = spec_frame_us(anchor, hop, rate);
        seq![first_us as i64] + spec_find_tail(
            env,
            pf,
            period_us,
            first_us,
            rate,
            hop,
            num_beats,
            1,
        )
    }
}

/// Place beat positions through the envelope at the estimated tempo.
#[verifier::rlimit(100)]
pub fn find_beats(s: &Spectrogram, env: &Vec<u32>, bpm_milli: u32, duration_us: i64) -> (r: Vec<
    i64,
>)
    requires
        s.wf(),
        env@.len() <= MAX_FRAMES,
        forall|k: int| 0 <= k < env@.len() ==> #[trigger] env@[k] <= 1_000_000,
        1_000 <= bpm_milli <= 1_000_000,
        0 <= duration_us <= 10_000_000_000_000,
    ensures
        r@ == spec_find_beats(
            env@,
            bpm_milli as int,
            s.sample_rate as int,
            s.hop_size as int,
            duration_us as int,
        ),
{
    let rate = s.sample_rate;
    let hop = s.hop_size;
    let n = env.len();

    let period_us: u64 = round_div_u64(60_000_000_000, bpm_milli as u64);
    proof {
        crate::fixed::lemma_round_div_ge(60_000_000_000, bpm_milli as int, 60_000);
        assert(60_000 * (bpm_milli as int) <= 60_000_000_000) by (nonlinear_arith)
            requires
                bpm_milli <= 1_000_000,
        ;
        crate::fixed::lemma_mul_abs_bound(hop as int, bpm_milli as int, 65_536, 1_000_000);
        assert(hop as int * bpm_milli as int >= 1) by (nonlinear_arith)
            requires
                hop >= 1,
                bpm_milli >= 1,
        ;
    }
    let pf0: u64 = round_div_u64(rate as u64 * 60_000, hop as u64 * bpm_milli as u64);
    let pf: u64 = if pf0 < 1 {
        1
    } else {
        pf0
    };
    proof {
        crate::fixed::lemma_round_div_le(rate as int * 60_000, hop as int * bpm_milli as int, 60_000_000_000);
        assert(rate as int * 60_000 <= 60_000_000_000 * (hop as int * bpm_milli as int))
            by (nonlinear_arith)
            requires
                rate <= 1_000_000,
                hop as int * bpm_milli as int >= 1,
        ;
    }

    let num_beats: u64 = duration_us as u64 / period_us + 1;
    proof {
        vstd::arithmetic::div_mod::lemma_div_pos_is_pos(duration_us as int, period_us as int);
        vstd::arithmetic::div_mod::lemma_div_is_ordered_by_denominator(
            duration_us as int,
            60_000,
            period_us as int,
        );
        vstd::arithmetic::div_mod::lemma_div_is_ordered(
            duration_us as int,
            10_000_000_000_000,
            60_000,
        );
    }
    if num_beats < 2 {
        let mut r: Vec<i64> = Vec::new();
        r.push(0);
        proof {
            assert(r@ =~= seq![0i64]);
        }
        return r;
    }

    // Anchor: strongest frame in the first two periods.
    let fe: usize = if 2 * pf < n as u64 {
        (2 * pf) as usize
    } else {
        n
    };
    let mut anchor: usize = 0;
    let mut anchor_val: u32 = 0;
    let mut i: usize = 0;
    while i < fe
        invariant
            fe <= n == env@.len(),
            0 <= i <= fe,
            forall|k: int| 0 <= k < env@.len() ==> #[trigger] env@[k] <= 1_000_000,
            anchor == spec_anchor_upto(env@, i as int).0,
            anchor_val == spec_anchor_upto(env@, i as int).1,
            anchor <= i,
        decreases fe - i,
    {
        if env[i] > anchor_val {
            anchor = i;
            anchor_val = env[i];
        }
        i = i + 1;
    }

    let first_us: i64 = frame_us(anchor, hop, rate);
    let mut beats: Vec<i64> = Vec::new();
    beats.push(first_us);

    let ghost tail_full = spec_find_tail(
        env@,
        pf as int,
        period_us as int,
        first_us as int,
        rate as int,
        hop as int,
        num_beats as int,
        1,
    );
    let mut idx: u64 = 1;
    loop
        invariant
            s.wf(),
            rate == s.sample_rate,
            hop == s.hop_size,
            n == env@.len() <= MAX_FRAMES,
            forall|k: int| 0 <= k < env@.len() ==> #[trigger] env@[k] <= 1_000_000,
            1_000 <= bpm_milli <= 1_000_000,
            1 <= pf <= 60_000_000_000,
            60_000 <= period_us <= 60_000_000_000,
            2 <= num_beats <= 1_000_000_000,
            0 <= duration_us <= 10_000_000_000_000,
            num_beats == duration_us as int / period_us as int + 1,
            0 <= first_us <= 10_000_000_000_000,
            1 <= idx <= num_beats,
            beats@.len() >= 1,
            beats@[0] == first_us,
            tail_full == beats@.skip(1) + spec_find_tail(
                env@,
                pf as int,
                period_us as int,
                first_us as int,
                rate as int,
                hop as int,
                num_beats as int,
                idx as int,
            ),
        ensures
            spec_find_tail(
                env@,
                pf as int,
                period_us as int,
                first_us as int,
                rate as int,
                hop as int,
                num_beats as int,
                idx as int,
            ) =~= Seq::<i64>::empty(),
        decreases num_beats - idx,
    {
        if idx >= num_beats {
            break ;
        }
        proof {
            assert(idx as int <= duration_us as int / period_us as int);
            vstd::arithmetic::mul::lemma_mul_inequality(
                idx as int,
                duration_us as int / period_us as int,
                period_us as int,
            );
            vstd::arithmetic::div_mod::lemma_fundamental_div_mod(
                duration_us as int,
                period_us as int,
            );
            vstd::arithmetic::div_mod::lemma_mod_bound(duration_us as int, period_us as int);
            assert((duration_us as int / period_us as int) * (period_us as int) == (
            period_us as int) * (duration_us as int / period_us as int)) by (nonlinear_arith);
            assert(idx as int * period_us as int >= 0) by (nonlinear_arith)
                requires
                    idx >= 1,
                    period_us >= 1,
            ;
        }
        let expected_us: i128 = first_us as i128 + idx as i128 * period_us as i128;
        proof {
            crate::fixed::lemma_mul_abs_bound(
                expected_us as int,
                rate as int,
                20_100_000_000_000,
                1_000_000,
            );
            vstd::arithmetic::div_mod::lemma_div_pos_is_pos(
                (expected_us as int) * rate as int,
                hop as int * 1_000_000,
            );
        }
        let ef_wide: i128 = (expected_us * rate as i128) / (hop as i128 * 1_000_000);
        if ef_wide >= n as i128 {
            break ;
        }
        let ef: usize = ef_wide as usize;
        let radius_wide: u64 = pf / 4;
        let radius: usize = if radius_wide > n as u64 {
            n
        } else {
            radius_wide as usize
        };
        proof {
            assert(radius <= (pf as int) / 4);
        }
        let ws: usize = if ef > radius {
            ef - radius
        } else {
            0
        };
        let we: usize = if ef + radius + 1 < n {
            ef + radius + 1
        } else {
            n
        };
        // The clamped radius never moves the window: the window is already
        // clamped to the envelope.
        proof {
            let rad = (pf as int) / 4;
            let ws_s = if ef - rad > 0 {
                ef - rad
            } else {
                0
            };
            let we_s = if ef + rad + 1 < env@.len() {
                ef + rad + 1
            } else {
                env@.len() as int
            };
            assert(ws == ws_s && we == we_s);
        }

        let mut bf: usize = if ef < n - 1 {
            ef
        } else {
            n - 1
        };
        let mut bs: i64 = -1_000_000;
        let mut f: usize = ws;
        while f < we
            invariant
                n == env@.len() <= MAX_FRAMES,
                forall|k: int| 0 <= k < env@.len() ==> #[trigger] env@[k] <= 1_000_000,
                ws <= f <= we <= n,
                0 <= ef < n,
                1 <= pf <= 60_000_000_000,
                ef <= ws + radius,
                we <= ef + radius + 1,
                radius <= (pf as int) / 4,
                bf < n,
                (bf as int, bs as int) == spec_best_in_window(
                    env@,
                    ws as int,
                    f as int,
                    ef as int,
                    pf as int,
                ),
            decreases we - f,
        {
            let dev: u64 = if f >= ef {
                (f - ef) as u64
            } else {
                (ef - f) as u64
            };
            proof {
                crate::fixed::lemma_mul_abs_bound(dev as int, dev as int, 10_000_000, 10_000_000);
                crate::fixed::lemma_mul_abs_bound(
                    pf as int,
                    pf as int,
                    60_000_000_000,
                    60_000_000_000,
                );
                assert(pf as int * pf as int >= 1) by (nonlinear_arith)
                    requires
                        pf >= 1,
                ;
                assert(4 * (dev as int) <= pf);
                assert(2_000_000 * ((dev as int) * (dev as int)) <= 125_000 * ((pf as int) * (
                pf as int))) by (nonlinear_arith)
                    requires
                        4 * (dev as int) <= pf as int,
                        dev >= 0,
                ;
                crate::fixed::lemma_round_div_le(
                    2_000_000 * ((dev as int) * (dev as int)),
                    (pf as int) * (pf as int),
                    125_000,
                );
                crate::fixed::lemma_round_div_nonneg(
                    2_000_000 * ((dev as int) * (dev as int)),
                    (pf as int) * (pf as int),
                );
            }
            let dsq: u128 = (dev as u128) * (dev as u128);
            let pf2: u128 = (pf as u128) * (pf as u128);
            let pen_wide: u128 = (2 * (2_000_000 * dsq) + pf2) / (2 * pf2);
            let pen: i64 = if pen_wide > 4_000_000_000_000_000 {
                4_000_000_000_000_000
            } else {
                pen_wide as i64
            };
            proof {
                assert(pen == round_div_spec(
                    2_000_000 * ((dev as int) * (dev as int)),
                    (pf as int) * (pf as int),
                ) || pen == 4_000_000_000_000_000);
            }
            let sc: i64 = env[f] as i64 - pen;
            if sc > bs {
                bf = f;
                bs = sc;
            }
            f = f + 1;
        }
        let bt = frame_us(bf, hop, rate);
        beats.push(bt);
        proof {
            assert(tail_full == beats@.skip(1) + spec_find_tail(
                env@,
                pf as int,
                period_us as int,
                first_us as int,
                rate as int,
                hop as int,
                num_beats as int,
                idx + 1,
            )) by {
                assert(beats@.skip(1) =~= beats@.drop_last().skip(1).push(bt));
                assert(seq![bt] + spec_find_tail(
                    env@,
                    pf as int,
                    period_us as int,
                    first_us as int,
                    rate as int,
                    hop as int,
                    num_beats as int,
                    idx + 1,
                ) =~= spec_find_tail(
                    env@,
                    pf as int,
                    period_us as int,
                    first_us as int,
                    rate as int,
                    hop as int,
                    num_beats as int,
                    idx as int,
                ));
                assert(beats@.drop_last().skip(1) + (seq![bt] + spec_find_tail(
                    env@,
                    pf as int,
                    period_us as int,
                    first_us as int,
                    rate as int,
                    hop as int,
                    num_beats as int,
                    idx + 1,
                )) =~= beats@.skip(1) + spec_find_tail(
                    env@,
                    pf as int,
                    period_us as int,
                    first_us as int,
                    rate as int,
                    hop as int,
                    num_beats as int,
                    idx + 1,
                ));
            }
        }
        idx = idx + 1;
    }
    proof {
        assert(beats@ =~= seq![first_us] + beats@.skip(1));
        assert(beats@ =~= spec_find_beats(
            env@,
            bpm_milli as int,
            s.sample_rate as int,
            s.hop_size as int,
            duration_us as int,
        ));
    }
    beats
}

/// Whether a beat sequence can serve as a grid: within capacity,
/// nondecreasing, and in range.
pub open spec fn spec_grid_ok(beats: Seq<i64>) -> bool {
    &&& beats.len() <= MAX_FRAMES
    &&& forall|i: int, j: int|
        0 <= i <= j < beats.len() ==> 0 <= #[trigger] beats[i] <= #[trigger] beats[j]
            <= MAX_BEAT_TIME_US
}

/// Track beats from a spectrogram and its onsets: build the smoothed
/// envelope, estimate the tempo (unless overridden), and place beats.
/// Returns `None` when the placed beats come out unordered or out of range —
/// a grid the runtime could not consume.
#[verifier::loop_isolation(false)]
pub fn track_beats(s: &Spectrogram, onsets: &Vec<OnsetEvent>, bpm_override: Option<u32>) -> (r:
    Option<BeatGrid>)
    requires
        s.wf(),
        forall|k: int| 0 <= k < onsets@.len() ==> (#[trigger] onsets@[k]).strength <= 1_000_000,
        match bpm_override {
            Some(b) => 1_000 <= b <= 1_000_000,
            None => true,
        },
    ensures
        ({
            let env = spec_onset_envelope(*s, onsets@);
            let bpm = match bpm_override {
                Some(b) => b as int,
                None => spec_clamped_tempo(spec_estimate_tempo(*s, env)),
            };
            let beats = spec_find_beats(
                env,
                bpm,
                s.sample_rate as int,
                s.hop_size as int,
                spec_frame_us(s.frames@.len() as int, s.hop_size as int, s.sample_rate as int),
            );
            match r {
                Some(grid) => {
                    &&& grid.wf()
                    &&& grid.bpm_milli == bpm
                    &&& grid.beats@ == beats
                },
                None => !spec_grid_ok(beats),
            }
        }),
{
    let duration_us = frame_us(s.frames.len(), s.hop_size, s.sample_rate);
    let env = build_onset_envelope(s, onsets);
    let bpm: u32 = match bpm_override {
        Some(b) => b,
        None => estimate_tempo(s, &env),
    };
    let beats = find_beats(s, &env, bpm, duration_us);
    proof {
        let env_s = spec_onset_envelope(*s, onsets@);
        let bpm_s = match bpm_override {
            Some(b) => b as int,
            None => spec_clamped_tempo(spec_estimate_tempo(*s, env_s)),
        };
        assert(env@ == env_s);
        assert(bpm as int == bpm_s);
        assert(duration_us as int == spec_frame_us(
            s.frames@.len() as int,
            s.hop_size as int,
            s.sample_rate as int,
        ));
        assert(beats@ == spec_find_beats(
            env_s,
            bpm_s,
            s.sample_rate as int,
            s.hop_size as int,
            spec_frame_us(s.frames@.len() as int, s.hop_size as int, s.sample_rate as int),
        ));
    }

    // The runtime needs a nondecreasing in-range grid.
    let mut i: usize = 0;
    let n = beats.len();
    while i < n
        invariant
            n == beats@.len(),
            0 <= i <= n,
            forall|a: int, b: int|
                0 <= a <= b < i ==> 0 <= #[trigger] beats@[a] <= #[trigger] beats@[b]
                    <= MAX_BEAT_TIME_US,
        decreases n - i,
    {
        if beats[i] < 0 || beats[i] > MAX_BEAT_TIME_US {
            proof {
                assert(!spec_grid_ok(beats@)) by {
                    if spec_grid_ok(beats@) {
                        assert(0 <= beats@[i as int] <= beats@[i as int] <= MAX_BEAT_TIME_US);
                    }
                }
            }
            return None;
        }
        if i > 0 && beats[i - 1] > beats[i] {
            proof {
                assert(!spec_grid_ok(beats@)) by {
                    if spec_grid_ok(beats@) {
                        assert(0 <= beats@[i - 1] <= beats@[i as int] <= MAX_BEAT_TIME_US);
                    }
                }
            }
            return None;
        }
        i = i + 1;
    }
    if n > MAX_FRAMES {
        return None;
    }
    Some(BeatGrid { beats, bpm_milli: bpm })
}

} // verus!
