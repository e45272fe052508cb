//! Quantization: snapping detected onsets to the beat grid at a difficulty's
//! resolution, merging onsets that land on the same grid slot.

use vstd::prelude::*;

verus! {

use crate::beat::{BeatGrid, spec_time_to_beat};
use crate::fixed::{round_div_spec, lemma_round_div_le, lemma_round_div_nonneg};
use crate::onset::OnsetEvent;

/// A note snapped to the beat grid.
#[derive(Debug, Clone, Copy, PartialEq, Eq, Structural)]
pub struct QuantizedNote {
    /// Beat position, micro-beats; always a multiple of the grid step.
    pub beat: i64,
    /// Onset strength, micro-units.
    pub strength: u32,
    /// The onset's original time, microseconds.
    pub original_time_us: i64,
}

/// A raw beat snapped to the nearest multiple of `1_000_000 / g` micro-beats.
pub open spec fn spec_snap(raw: int, g: int) -> int {
    let step = 1_000_000int / g;
    round_div_spec(raw, step) * step
}

/// Quantization of an onset list, processed in order: each onset's time is
/// mapped to a beat and snapped; onsets before beat zero are skipped; two
/// onsets on the same slot keep the stronger one; one that would land before
/// the previous slot (out-of-order input) is dropped.
pub open spec fn spec_quantize(
    onsets: Seq<OnsetEvent>,
    beats: Seq<i64>,
    bpm_milli: int,
    g: int,
) -> Seq<QuantizedNote>
    decreases onsets.len(),
{
    if onsets.len() == 0 {
        Seq::<QuantizedNote>::empty()
    } else {
        let prev = spec_quantize(onsets.drop_last(), beats, bpm_milli, g);
        let o = onsets.last();
        let raw = spec_time_to_beat(beats, bpm_milli, o.time_us as int);
        if raw < 0 {
            prev
        } else {
            let snapped = spec_snap(raw, g);
            let note = QuantizedNote {
                beat: snapped as i64,
                strength: o.strength,
                original_time_us: o.time_us,
            };
            if prev.len() == 0 {
                prev.push(note)
            } else if snapped > prev.last().beat {
                prev.push(note)
            } else if snapped == prev.last().beat {
                if o.strength > prev.last().strength {
                    prev.drop_last().push(note)
                } else {
                    prev
                }
            } else {
                prev
            }
        }
    }
}

/// Snap detected onsets to the grid at `grid_resolution` subdivisions per
/// beat. Output beats are exact multiples of the grid step, strictly
/// increasing, with colliding onsets merged to the stronger one.
pub fn quantize_onsets(onsets: &Vec<OnsetEvent>, grid: &BeatGrid, grid_resolution: u32) -> (r: Vec<
    QuantizedNote,
>)
    requires
        grid.wf(),
        grid_resolution == 1 || grid_resolution == 2 || grid_resolution == 4 || grid_resolution
            == 8,
        forall|k: int|
            0 <= k < onsets@.len() ==> 0 <= (#[trigger] onsets@[k]).time_us
                <= 1_000_000_000_000,
    ensures
        r@ == spec_quantize(onsets@, grid.beats@, grid.bpm_milli as int, grid_resolution as int),
        // Quantization fidelity: every output beat is a whole multiple of
        // the grid step.
        forall|k: int|
            0 <= k < r@.len() ==> (#[trigger] r@[k]).beat as int % (1_000_000int / grid_resolution as int)
                == 0,
        // Outputs are strictly increasing and nonnegative.
        forall|a: int, b: int| 0 <= a < b < r@.len() ==> (#[trigger] r@[a]).beat < (#[trigger] r@[b]).beat,
        forall|k: int| 0 <= k < r@.len() ==> (#[trigger] r@[k]).beat >= 0,
{
    let step: i64 = 1_000_000 / grid_resolution as i64;
    let mut out: Vec<QuantizedNote> = Vec::new();
    let mut i: usize = 0;
    while i < onsets.len()
        invariant
            grid.wf(),
            grid_resolution == 1 || grid_resolution == 2 || grid_resolution == 4
                || grid_resolution == 8,
            step == 1_000_000 as int / grid_resolution as int,
            forall|k: int|
                0 <= k < onsets@.len() ==> 0 <= (#[trigger] onsets@[k]).time_us
                    <= 1_000_000_000_000,
            0 <= i <= onsets@.len(),
            out@ == spec_quantize(
                onsets@.take(i as int),
                grid.beats@,
                grid.bpm_milli as int,
                grid_resolution as int,
            ),
            forall|k: int| 0 <= k < out@.len() ==> (#[trigger] out@[k]).beat % step == 0,
            forall|a: int, b: int|
                0 <= a < b < out@.len() ==> (#[trigger] out@[a]).beat < (#[trigger] out@[b]).beat,
            forall|k: int| 0 <= k < out@.len() ==> (#[trigger] out@[k]).beat >= 0,
        decreases onsets@.len() - i,
    {
        proof {
            assert(onsets@.take(i + 1).drop_last() =~= onsets@.take(i as int));
            assert(onsets@.take(i + 1).last() == onsets@[i as int]);
        }
        let o = onsets[i];
        let raw = grid.time_to_beat(o.time_us);
        if raw >= 0 {
            proof {
                lemma_round_div_nonneg(raw as int, step as int);
                vstd::arithmetic::div_mod::lemma_fundamental_div_mod(raw as int, step as int);
                vstd::arithmetic::div_mod::lemma_mod_bound(raw as int, step as int);
                assert(((raw as int) / (step as int) + 1) * (step as int) == ((raw as int) / (
                step as int)) * (step as int) + step) by (nonlinear_arith);
                assert(((raw as int) / (step as int)) * (step as int) == (step as int) * ((
                raw as int) / (step as int))) by (nonlinear_arith);
                lemma_round_div_le(raw as int, step as int, (raw as int) / (step as int) + 1);
            }
            let k: i64 = crate::fixed::round_div_i128(raw as i128, step as i128) as i64;
            proof {
                vstd::arithmetic::mul::lemma_mul_inequality(
                    k as int,
                    (raw as int) / (step as int) + 1,
                    step as int,
                );
                vstd::arithmetic::mul::lemma_mul_nonnegative(k as int, step as int);
            }
            let snapped: i64 = k * step;
            proof {
                vstd::arithmetic::div_mod::lemma_mod_multiples_basic(k as int, step as int);
                assert((k as int) * (step as int) % (step as int) == 0);
            }
            let note = QuantizedNote { beat: snapped, strength: o.strength, original_time_us: o.time_us };
            let len = out.len();
            if len == 0 {
                out.push(note);
            } else {
                let last_beat = out[len - 1].beat;
                let last_strength = out[len - 1].strength;
                if snapped > last_beat {
                    out.push(note);
                } else if snapped == last_beat {
                    if o.strength > last_strength {
                        let ghost before = out@;
                        let _ = out.pop();
                        out.push(note);
                        proof {
                            assert(out@ =~= before.drop_last().push(note));
                        }
                    }
                }
            }
        }
        i = i + 1;
    }
    proof {
        assert(onsets@.take(onsets@.len() as int) =~= onsets@);
    }
    out
}

} // verus!
