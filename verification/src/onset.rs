//! Spectral-flux onset detection with adaptive peak picking.
//!
//! The flux of a frame is the sum of positive magnitude increases over its
//! predecessor, normalized so the loudest flux is one unit. A frame is an
//! onset iff its flux clears an adaptive threshold (local mean plus a
//! sensitivity multiple of the local deviation), is a local maximum, passes
//! the silence gate, and keeps the minimum inter-onset distance.

use vstd::prelude::*;

verus! {

use crate::fixed::{round_div_spec, is_isqrt, isqrt_u128};
use crate::stft::{
    Spectrogram, spec_sum, sum_range, lemma_spec_sum_bound, lemma_isqrt_unique_forall,
    MAX_FRAMES,
};

/// Silence gate: frames whose RMS energy is below this (micro-units) emit no
/// onset.
pub const SILENCE_THRESHOLD_MICRO: u32 = 200;

/// A detected onset.
#[derive(Debug, Clone, Copy, PartialEq, Eq, Structural)]
pub struct OnsetEvent {
    /// Frame index in the spectrogram.
    pub frame: usize,
    /// Onset strength: normalized flux, micro-units in `[0, 1]`.
    pub strength: u32,
    /// Onset time, microseconds.
    pub time_us: i64,
}

/// Spectral flux between two frames: the sum of positive magnitude
/// increases.
pub open spec fn spec_flux_pair(prev: Seq<u32>, cur: Seq<u32>) -> int
    decreases cur.len(),
{
    if cur.len() == 0 || prev.len() == 0 {
        0
    } else {
        spec_flux_pair(prev.drop_last(), cur.drop_last()) + if cur.last() > prev.last() {
            cur.last() - prev.last()
        } else {
            0
        }
    }
}

/// Raw flux of a frame: zero for the first frame, else the flux over its
/// predecessor.
pub open spec fn spec_flux_at(s: Spectrogram, i: int) -> int {
    if i == 0 {
        0
    } else {
        spec_flux_pair(s.frames@[i - 1]@, s.frames@[i]@)
    }
}

/// The raw flux envelope of a spectrogram.
pub open spec fn spec_flux_seq(s: Spectrogram) -> Seq<int> {
    Seq::new(s.frames@.len(), |i: int| spec_flux_at(s, i))
}

/// Largest value of an integer sequence (zero when empty).
pub open spec fn spec_seq_max(s: Seq<int>) -> int
    decreases s.len(),
{
    if s.len() == 0 {
        0
    } else {
        let m = spec_seq_max(s.drop_last());
        if s.last() > m {
            s.last()
        } else {
            m
        }
    }
}

/// The normalized flux envelope: scaled so the largest flux is one unit
/// (micro-units); all zero when there is no flux at all.
pub open spec fn spec_norm_flux(s: Spectrogram) -> Seq<int> {
    let raw = spec_flux_seq(s);
    let m = spec_seq_max(raw);
    Seq::new(raw.len(), |i: int| if m > 0 {
        round_div_spec(raw[i] * 1_000_000, m)
    } else {
        raw[i]
    })
}

/// Sum of squared deviations from `mean`.
pub open spec fn spec_sum_sq_dev(s: Seq<u32>, mean: int) -> int
    decreases s.len(),
{
    if s.len() == 0 {
        0
    } else {
        spec_sum_sq_dev(s.drop_last(), mean) + (s.last() - mean) * (s.last() - mean)
    }
}

/// Whether frame `i` is an onset, given the normalized flux, the detector
/// parameters, and the frame of the previous onset (if any):
/// - flux clears `mean + sensitivity * stddev` over the centered window;
/// - flux strictly exceeds the previous frame and is not below the next;
/// - the frame's RMS energy clears the silence gate;
/// - at least `min_frames` frames passed since the previous onset.
pub open spec fn spec_onset_accept(
    s: Spectrogram,
    fluxn: Seq<u32>,
    sens_milli: int,
    min_frames: int,
    avg_window: int,
    i: int,
    last: Option<int>,
) -> bool {
    let n = fluxn.len() as int;
    let ws = if i - avg_window / 2 > 0 {
        i - avg_window / 2
    } else {
        0
    };
    let we = if i + avg_window / 2 + 1 < n {
        i + avg_window / 2 + 1
    } else {
        n
    };
    let window = fluxn.subrange(ws, we);
    let mean = round_div_spec(spec_sum(window), we - ws);
    let var = round_div_spec(spec_sum_sq_dev(window, mean), we - ws);
    let std = choose|r: int| is_isqrt(var, r);
    &&& 1000 * fluxn[i] >= 1000 * mean + sens_milli * std
    &&& fluxn[i] > fluxn[i - 1]
    &&& (i + 1 < n ==> fluxn[i] >= fluxn[i + 1])
    &&& s.spec_frame_energy(i) >= SILENCE_THRESHOLD_MICRO
    &&& match last {
        Some(l) => i - l >= min_frames,
        None => true,
    }
}

/// The onsets among frames `1..i`, in frame order.
pub open spec fn spec_onsets_upto(
    s: Spectrogram,
    fluxn: Seq<u32>,
    sens_milli: int,
    min_frames: int,
    avg_window: int,
    i: int,
) -> Seq<OnsetEvent>
    decreases i,
{
    if i <= 1 {
        Seq::<OnsetEvent>::empty()
    } else {
        let prev = spec_onsets_upto(s, fluxn, sens_milli, min_frames, avg_window, i - 1);
        let last = if prev.len() == 0 {
            None
        } else {
            Some(prev.last().frame as int)
        };
        if spec_onset_accept(s, fluxn, sens_milli, min_frames, avg_window, i - 1, last) {
            prev.push(
                OnsetEvent {
                    frame: (i - 1) as usize,
                    strength: fluxn[i - 1] as u32,
                    time_us: s.spec_frame_to_micros(i - 1) as i64,
                },
            )
        } else {
            prev
        }
    }
}

/// The moving-average window length (frames): about half a second, at least
/// three frames.
pub open spec fn spec_avg_window(s: Spectrogram) -> int {
    let w = s.sample_rate as int / (2 * s.hop_size as int);
    if w < 3 {
        3
    } else {
        w
    }
}

/// The minimum inter-onset interval in frames, at least one.
pub open spec fn spec_min_interval_frames(s: Spectrogram, min_interval_us: int) -> int {
    let f = (min_interval_us * s.sample_rate as int) / (1_000_000 * s.hop_size as int);
    if f < 1 {
        1
    } else {
        f
    }
}

/// Spectral flux between two adjacent frames.
fn flux_pair(prev: &Vec<u32>, cur: &Vec<u32>) -> (r: u64)
    requires
        prev@.len() == cur@.len() <= 2048,
    ensures
        r == spec_flux_pair(prev@, cur@),
        r <= cur@.len() * 0x1_0000_0000,
{
    let n = cur.len();
    let mut acc: u64 = 0;
    let mut i: usize = 0;
    while i < n
        invariant
            n == cur@.len() == prev@.len() <= 2048,
            0 <= i <= n,
            acc == spec_flux_pair(prev@.take(i as int), cur@.take(i as int)),
            0 <= acc <= i * 0x1_0000_0000,
        decreases n - i,
    {
        proof {
            assert(prev@.take(i + 1).drop_last() =~= prev@.take(i as int));
            assert(cur@.take(i + 1).drop_last() =~= cur@.take(i as int));
            assert(cur@.take(i + 1).last() == cur@[i as int]);
            assert(prev@.take(i + 1).last() == prev@[i as int]);
        }
        let p = prev[i];
        let c = cur[i];
        if c > p {
            acc = acc + (c - p) as u64;
        }
        i = i + 1;
    }
    proof {
        assert(prev@.take(n as int) =~= prev@);
        assert(cur@.take(n as int) =~= cur@);
    }
    acc
}

/// Sum of squared deviations from `mean` over `v[lo..hi]`.
fn sum_sq_dev_range(v: &Vec<u32>, lo: usize, hi: usize, mean: u64) -> (r: u128)
    requires
        lo <= hi <= v@.len(),
        v@.len() <= 0x1_0000_0000,
        mean <= 1_000_000,
        forall|k: int| 0 <= k < v@.len() ==> #[trigger] v@[k] <= 1_000_000,
    ensures
        r == spec_sum_sq_dev(v@.subrange(lo as int, hi as int), mean as int),
{
    let mut acc: u128 = 0;
    let mut i: usize = lo;
    while i < hi
        invariant
            lo <= i <= hi <= v@.len(),
            v@.len() <= 0x1_0000_0000,
            mean <= 1_000_000,
            forall|k: int| 0 <= k < v@.len() ==> #[trigger] v@[k] <= 1_000_000,
            acc == spec_sum_sq_dev(v@.subrange(lo as int, i as int), mean as int),
            0 <= acc <= (i - lo) * 1_000_000_000_000,
        decreases hi - i,
    {
        proof {
            assert(v@.subrange(lo as int, i + 1).drop_last() =~= v@.subrange(lo as int, i as int));
            assert(v@.subrange(lo as int, i + 1).last() == v@[i as int]);
            crate::fixed::lemma_mul_abs_bound(
                v@[i as int] - mean as int,
                v@[i as int] - mean as int,
                1_000_000,
                1_000_000,
            );
            assert((v@[i as int] - mean as int) * (v@[i as int] - mean as int) >= 0)
                by (nonlinear_arith);
        }
        let d: i64 = v[i] as i64 - mean as i64;
        acc = acc + (d * d) as u128;
        i = i + 1;
    }
    acc
}

/// Detect onsets in a spectrogram. `sensitivity_milli` is the threshold
/// multiplier in milli-units (1500 = the default 1.5); `min_interval_us` the
/// minimum time between onsets.
#[verifier::rlimit(100)]
pub fn detect_onsets(s: &Spectrogram, sensitivity_milli: u32, min_interval_us: i64) -> (r: Vec<
    OnsetEvent,
>)
    requires
        s.wf(),
        sensitivity_milli <= 10_000,
        0 <= min_interval_us <= 10_000_000,
    ensures
        r@ == spec_onsets_upto(
            *s,
            spec_norm_flux(*s).map_values(|v: int| v as u32),
            sensitivity_milli as int,
            spec_min_interval_frames(*s, min_interval_us as int),
            spec_avg_window(*s),
            s.frames@.len() as int,
        ),
{
    let n = s.frames.len();
    let ghost fluxn_spec = spec_norm_flux(*s).map_values(|v: int| v as u32);
    if n < 2 {
        proof {
            assert(spec_onsets_upto(
                *s,
                fluxn_spec,
                sensitivity_milli as int,
                spec_min_interval_frames(*s, min_interval_us as int),
                spec_avg_window(*s),
                n as int,
            ) =~= Seq::<OnsetEvent>::empty());
        }
        return Vec::new();
    }

    // Raw spectral flux, one value per frame.
    let mut flux: Vec<u64> = Vec::new();
    flux.push(0);
    let mut i: usize = 1;
    while i < n
        invariant
            2 <= n == s.frames@.len() <= MAX_FRAMES,
            s.wf(),
            1 <= i <= n,
            flux@.len() == i,
            forall|k: int| 0 <= k < i ==> flux@[k] == spec_flux_at(*s, k),
            forall|k: int| 0 <= k < i ==> #[trigger] flux@[k] <= 0x800_0000_0000,
        decreases n - i,
    {
        let f = flux_pair(&s.frames[i - 1], &s.frames[i]);
        flux.push(f);
        i = i + 1;
    }

    // Largest flux, for normalization.
    let mut max_flux: u64 = 0;
    let mut i: usize = 0;
    while i < n
        invariant
            n == flux@.len() == s.frames@.len(),
            0 <= i <= n,
            forall|k: int| 0 <= k < n ==> flux@[k] == spec_flux_at(*s, k),
            forall|k: int| 0 <= k < n ==> #[trigger] flux@[k] <= 0x800_0000_0000,
            max_flux == spec_seq_max(spec_flux_seq(*s).take(i as int)),
            max_flux <= 0x800_0000_0000,
        decreases n - i,
    {
        proof {
            assert(spec_flux_seq(*s).take(i + 1).drop_last() =~= spec_flux_seq(*s).take(i as int));
            assert(spec_flux_seq(*s).take(i + 1).last() == spec_flux_at(*s, i as int));
        }
        if flux[i] > max_flux {
            max_flux = flux[i];
        }
        i = i + 1;
    }
    proof {
        assert(spec_flux_seq(*s).take(n as int) =~= spec_flux_seq(*s));
    }

    // Normalized flux in micro-units.
    let mut fluxn: Vec<u32> = Vec::new();
    let mut i: usize = 0;
    while i < n
        invariant
            n == flux@.len() == s.frames@.len(),
            0 <= i <= n,
            forall|k: int| 0 <= k < n ==> flux@[k] == spec_flux_at(*s, k),
            forall|k: int| 0 <= k < n ==> #[trigger] flux@[k] <= 0x800_0000_0000,
            max_flux == spec_seq_max(spec_flux_seq(*s)),
            max_flux <= 0x800_0000_0000,
            fluxn@.len() == i,
            forall|k: int| 0 <= k < i ==> fluxn@[k] == spec_norm_flux(*s)[k],
            forall|k: int| 0 <= k < i ==> #[trigger] fluxn@[k] <= 1_000_000,
        decreases n - i,
    {
        if max_flux > 0 {
            proof {
                assert(spec_flux_at(*s, i as int) <= spec_seq_max(spec_flux_seq(*s))) by {
                    lemma_seq_max_ge(spec_flux_seq(*s), i as int);
                }
                crate::fixed::lemma_round_div_le(
                    (flux@[i as int] as int) * 1_000_000,
                    max_flux as int,
                    1_000_000,
                );
                crate::fixed::lemma_round_div_nonneg(
                    (flux@[i as int] as int) * 1_000_000,
                    max_flux as int,
                );
                assert((flux@[i as int] as int) * 1_000_000 <= 1_000_000 * (max_flux as int))
                    by (nonlinear_arith)
                    requires
                        flux@[i as int] <= max_flux,
                ;
            }
            let v: u64 = ((2 * (flux[i] as u128) * 1_000_000 + max_flux as u128) / (2
                * max_flux as u128)) as u64;
            fluxn.push(v as u32);
        } else {
            proof {
                assert(spec_flux_at(*s, i as int) <= spec_seq_max(spec_flux_seq(*s))) by {
                    lemma_seq_max_ge(spec_flux_seq(*s), i as int);
                }
            }
            fluxn.push(flux[i] as u32);
        }
        i = i + 1;
    }
    proof {
        assert(fluxn@ =~= fluxn_spec);
    }

    // Detector parameters.
    let avg_window: usize = {
        let w = (s.sample_rate as usize) / (2 * s.hop_size);
        if w < 3 {
            3
        } else {
            w
        }
    };
    proof {
        crate::fixed::lemma_mul_abs_bound(
            min_interval_us as int,
            s.sample_rate as int,
            10_000_000,
            1_000_000,
        );
    }
    let mi_num: u64 = min_interval_us as u64 * s.sample_rate as u64;
    let mi_den: u64 = 1_000_000 * s.hop_size as u64;
    let mi_f: u64 = mi_num / mi_den;
    proof {
        vstd::arithmetic::div_mod::lemma_div_pos_is_pos(mi_num as int, mi_den as int);
        vstd::arithmetic::div_mod::lemma_fundamental_div_mod(mi_num as int, mi_den as int);
        vstd::arithmetic::div_mod::lemma_mod_bound(mi_num as int, mi_den as int);
        assert((mi_den as int) * (mi_f as int) >= 1_000_000 * (mi_f as int)) by (nonlinear_arith)
            requires
                mi_den >= 1_000_000u64,
                mi_f >= 0,
        ;
    }
    let min_frames: usize = if mi_f < 1 {
        1
    } else {
        mi_f as usize
    };

    // Adaptive peak picking.
    let mut onsets: Vec<OnsetEvent> = Vec::new();
    let mut last_onset: Option<usize> = None;
    let mut i: usize = 1;
    while i < n
        invariant
            2 <= n == s.frames@.len() <= MAX_FRAMES,
            s.wf(),
            1 <= i <= n,
            sensitivity_milli <= 10_000,
            fluxn@.len() == n,
            fluxn@ == fluxn_spec,
            forall|k: int| 0 <= k < n ==> #[trigger] fluxn@[k] <= 1_000_000,
            avg_window == spec_avg_window(*s),
            3 <= avg_window,
            min_frames == spec_min_interval_frames(*s, min_interval_us as int),
            1 <= min_frames,
            onsets@ == spec_onsets_upto(
                *s,
                fluxn_spec,
                sensitivity_milli as int,
                min_frames as int,
                avg_window as int,
                i as int,
            ),
            match last_onset {
                None => onsets@.len() == 0,
                Some(l) => onsets@.len() > 0 && onsets@.last().frame == l && l < i,
            },
        decreases n - i,
    {
        let ws: usize = if i > avg_window / 2 {
            i - avg_window / 2
        } else {
            0
        };
        let we: usize = if i + avg_window / 2 + 1 < n {
            i + avg_window / 2 + 1
        } else {
            n
        };
        let count: u64 = (we - ws) as u64;
        let total = sum_range(&fluxn, ws, we);
        proof {
            lemma_spec_sum_bound(fluxn@.subrange(ws as int, we as int));
            lemma_spec_sum_le(fluxn@.subrange(ws as int, we as int));
            crate::fixed::lemma_round_div_le(total as int, count as int, 1_000_000);
            vstd::arithmetic::div_mod::lemma_div_pos_is_pos(
                2 * (total as int) + count as int,
                2 * (count as int),
            );
        }
        let mean: u64 = ((2 * total + count as u128) / (2 * count as u128)) as u64;
        let ssd = sum_sq_dev_range(&fluxn, ws, we, mean);
        proof {
            lemma_spec_sum_sq_dev_bound(
                fluxn@.subrange(ws as int, we as int),
                mean as int,
                1_000_000_000_000,
            );
            crate::fixed::lemma_round_div_le(ssd as int, count as int, 1_000_000_000_000);
            vstd::arithmetic::div_mod::lemma_div_pos_is_pos(
                2 * (ssd as int) + count as int,
                2 * (count as int),
            );
        }
        let var: u128 = (2 * ssd + count as u128) / (2 * count as u128);
        let std = isqrt_u128(var);
        proof {
            assert(is_isqrt(var as int, std as int));
            assert(std <= 1_000_000) by {
                if std > 1_000_000 {
                    assert((std as int) * (std as int) > 1_000_000_000_000) by (nonlinear_arith)
                        requires
                            std > 1_000_000u128,
                    ;
                }
            }
            lemma_isqrt_unique_forall(var as int);
        }

        proof {
            crate::fixed::lemma_mul_abs_bound(
                sensitivity_milli as int,
                std as int,
                10_000,
                1_000_000,
            );
        }
        let strong = 1000 * (fluxn[i] as u64) >= 1000 * mean + (sensitivity_milli as u64) * (std
            as u64);
        let local_max = fluxn[i] > fluxn[i - 1] && (i + 1 >= n || fluxn[i] >= fluxn[i + 1]);
        let loud = s.frame_energy(i) >= SILENCE_THRESHOLD_MICRO;
        let spaced = match last_onset {
            Some(l) => i - l >= min_frames,
            None => true,
        };
        proof {
            assert(fluxn@.subrange(ws as int, we as int) == fluxn_spec.subrange(
                ws as int,
                we as int,
            ));
        }
        if strong && local_max && loud && spaced {
            let t = s.frame_to_micros(i);
            onsets.push(OnsetEvent { frame: i, strength: fluxn[i], time_us: t });
            last_onset = Some(i);
        }
        i = i + 1;
    }
    onsets
}

/// Every element of a sequence is at most its maximum.
proof fn lemma_seq_max_ge(s: Seq<int>, i: int)
    requires
        0 <= i < s.len(),
    ensures
        s[i] <= spec_seq_max(s),
    decreases s.len(),
{
    if i == s.len() - 1 {
    } else {
        lemma_seq_max_ge(s.drop_last(), i);
    }
}

/// A sum of micro-unit values is at most one micro-unit per element.
proof fn lemma_spec_sum_le(s: Seq<u32>)
    requires
        forall|k: int| 0 <= k < s.len() ==> #[trigger] s[k] <= 1_000_000,
    ensures
        spec_sum(s) <= s.len() * 1_000_000,
    decreases s.len(),
{
    if s.len() > 0 {
        assert(s.last() <= 1_000_000);
        assert forall|k: int| 0 <= k < s.drop_last().len() implies #[trigger] s.drop_last()[k]
            <= 1_000_000 by {
            assert(s.drop_last()[k] == s[k]);
        }
        lemma_spec_sum_le(s.drop_last());
    }
}

/// A sum of squared deviations each bounded by `b` is at most `len * b`.
proof fn lemma_spec_sum_sq_dev_bound(s: Seq<u32>, mean: int, b: int)
    requires
        forall|k: int| 0 <= k < s.len() ==> #[trigger] s[k] <= 1_000_000,
        0 <= mean <= 1_000_000,
        b == 1_000_000_000_000,
    ensures
        0 <= spec_sum_sq_dev(s, mean) <= s.len() * b,
    decreases s.len(),
{
    if s.len() > 0 {
        lemma_spec_sum_sq_dev_bound(s.drop_last(), mean, b);
        crate::fixed::lemma_mul_abs_bound(s.last() - mean, s.last() - mean, 1_000_000, 1_000_000);
        assert((s.last() - mean) * (s.last() - mean) >= 0) by (nonlinear_arith);
    }
}

} // verus!
