//! Difficulty filtering: weight quantized notes by onset strength and beat
//! position, keep those above the difficulty's importance percentile, enforce
//! a minimum inter-note gap, guarantee one note per measure, and rate the
//! result by note density.

use vstd::prelude::*;

verus! {

use crate::chart::{Difficulty, spec_importance_percent, spec_min_note_gap};
use crate::fixed::{round_div_spec, lemma_round_div_nonneg, lemma_round_div_le};
use crate::quantize::QuantizedNote;

/// A note scored by importance for difficulty filtering.
#[derive(Debug, Clone, Copy, PartialEq, Eq, Structural)]
pub struct ScoredNote {
    /// Beat position, micro-beats.
    pub beat: i64,
    /// Onset strength, micro-units.
    pub strength: u32,
    /// Importance: strength (micro) times beat weight (milli), nano-units.
    pub importance: u64,
}

/// Beat-position weight, milli-units: downbeats weigh 1, other whole beats
/// 0.8, half-beats 0.5, finer subdivisions 0.3.
pub open spec fn spec_beat_weight(beat: int) -> int {
    let frac = beat % 1_000_000;
    if frac < 10_000 || frac > 990_000 {
        let whole = round_div_spec(beat, 1_000_000);
        if whole % 4 == 0 {
            1000
        } else {
            800
        }
    } else if frac - 500_000 < 10_000 && 500_000 - frac < 10_000 {
        500
    } else {
        300
    }
}

/// Beat-position weight, milli-units.
pub fn compute_beat_weight(beat: i64) -> (r: u32)
    requires
        0 <= beat <= 300_000_000_000_000,
    ensures
        r == spec_beat_weight(beat as int),
{
    let frac = beat % 1_000_000;
    if frac < 10_000 || frac > 990_000 {
        proof {
            lemma_round_div_nonneg(beat as int, 1_000_000);
            vstd::arithmetic::div_mod::lemma_div_pos_is_pos(
                2 * (beat as int) + 1_000_000,
                2_000_000,
            );
        }
        let whole: i64 = crate::fixed::round_div_i128(beat as i128, 1_000_000) as i64;
        if whole % 4 == 0 {
            1000
        } else {
            800
        }
    } else if frac - 500_000 < 10_000 && 500_000 - frac < 10_000 {
        500
    } else {
        300
    }
}

/// Quantized notes scored by importance.
pub open spec fn spec_score_notes(notes: Seq<QuantizedNote>) -> Seq<ScoredNote> {
    notes.map_values(
        |n: QuantizedNote|
            ScoredNote {
                beat: n.beat,
                strength: n.strength,
                importance: (n.strength * spec_beat_weight(n.beat as int)) as u64,
            },
    )
}

/// How many values of `s` do not exceed `x`.
pub open spec fn spec_count_le(s: Seq<u64>, x: int) -> int
    decreases s.len(),
{
    if s.len() == 0 {
        0
    } else {
        spec_count_le(s.drop_last(), x) + if s.last() <= x {
            1int
        } else {
            0int
        }
    }
}

/// The smallest element of `s` with more than `k` values of `all` at or
/// below it: the `k`-th smallest of `all` when `s == all`.
pub open spec fn spec_threshold(s: Seq<u64>, all: Seq<u64>, k: int) -> Option<int>
    decreases s.len(),
{
    if s.len() == 0 {
        None
    } else {
        let p = spec_threshold(s.drop_last(), all, k);
        let e = s.last() as int;
        if spec_count_le(all, e) > k {
            match p {
                None => Some(e),
                Some(m) => if e < m {
                    Some(e)
                } else {
                    Some(m)
                },
            }
        } else {
            p
        }
    }
}

/// The importances of a scored note list.
pub open spec fn spec_importances(s: Seq<ScoredNote>) -> Seq<u64> {
    s.map_values(|n: ScoredNote| n.importance)
}

/// The notes whose importance reaches `t`, in order.
pub open spec fn spec_filter_ge(s: Seq<ScoredNote>, t: int) -> Seq<ScoredNote>
    decreases s.len(),
{
    if s.len() == 0 {
        Seq::<ScoredNote>::empty()
    } else {
        let p = spec_filter_ge(s.drop_last(), t);
        if s.last().importance >= t {
            p.push(s.last())
        } else {
            p
        }
    }
}

/// Minimum-gap enforcement from position `i`: when two adjacent notes sit
/// closer than the gap (less a millibeat of tolerance), the less important
/// one is removed.
pub open spec fn spec_min_gap_rule(notes: Seq<ScoredNote>, i: int, min_gap: int) -> Seq<ScoredNote>
    decreases notes.len() - i,
{
    if i < 1 || i >= notes.len() {
        notes
    } else {
        let gap = notes[i].beat - notes[i - 1].beat;
        if gap < min_gap - 1_000 {
            if notes[i].importance < notes[i - 1].importance {
                spec_min_gap_rule(notes.remove(i), i, min_gap)
            } else {
                spec_min_gap_rule(notes.remove(i - 1), i, min_gap)
            }
        } else {
            spec_min_gap_rule(notes, i + 1, min_gap)
        }
    }
}

/// How many notes sit strictly before a beat.
pub open spec fn spec_count_before(s: Seq<ScoredNote>, beat: int) -> int
    decreases s.len(),
{
    if s.len() == 0 {
        0
    } else {
        spec_count_before(s.drop_last(), beat) + if s.last().beat < beat {
            1int
        } else {
            0int
        }
    }
}

/// The synthetic note inserted on an empty measure's downbeat.
pub open spec fn spec_synthetic(beat: int) -> ScoredNote {
    ScoredNote { beat: beat as i64, strength: 500_000, importance: 500_000_000 }
}

/// Measure fill after `m` measures: each 4-beat measure starting at
/// `first_beat` that holds no note gets a synthetic downbeat note.
pub open spec fn spec_measure_fill(notes: Seq<ScoredNote>, first_beat: int, m: int) -> Seq<
    ScoredNote,
>
    decreases m,
{
    if m <= 0 {
        notes
    } else {
        let cur = spec_measure_fill(notes, first_beat, m - 1);
        let start = first_beat + (m - 1) * 4_000_000;
        let has = exists|k: int|
            0 <= k < cur.len() && start <= (#[trigger] cur[k]).beat < start + 4_000_000;
        if has {
            cur
        } else {
            cur.insert(spec_count_before(cur, start), spec_synthetic(start))
        }
    }
}

/// The post-filter rules: minimum gap, then at least one note per measure
/// (only applied when at least two notes remain).
pub open spec fn spec_post_rules(notes: Seq<ScoredNote>, d: Difficulty) -> Seq<ScoredNote> {
    let gapped = spec_min_gap_rule(notes, 1, spec_min_note_gap(d));
    if gapped.len() >= 2 {
        let first = gapped[0].beat as int;
        let last = gapped[gapped.len() - 1].beat as int;
        let measures = if last < first {
            0
        } else {
            (last - first + 3_999_999) / 4_000_000
        };
        spec_measure_fill(gapped, first, measures)
    } else {
        gapped
    }
}

/// The whole difficulty filter.
pub open spec fn spec_filter_by_difficulty(
    notes: Seq<QuantizedNote>,
    d: Difficulty,
) -> Seq<ScoredNote> {
    if notes.len() == 0 {
        Seq::<ScoredNote>::empty()
    } else {
        let scored = spec_score_notes(notes);
        let pct = spec_importance_percent(d);
        let kept = if pct > 0 {
            let k = scored.len() * pct / 100;
            let imps = spec_importances(scored);
            match spec_threshold(imps, imps, k) {
                Some(t) => spec_filter_ge(scored, t),
                None => scored,
            }
        } else {
            scored
        };
        spec_post_rules(kept, d)
    }
}

/// Filter quantized notes by difficulty: score each by strength and beat
/// weight, keep those at or above the difficulty's importance percentile,
/// then enforce the minimum gap and the one-note-per-measure rule.
#[verifier::loop_isolation(false)]
#[verifier::rlimit(100)]
pub fn filter_by_difficulty(notes: &Vec<QuantizedNote>, difficulty: Difficulty) -> (r: Vec<
    ScoredNote,
>)
    requires
        notes@.len() <= 10_000_000,
        forall|k: int|
            0 <= k < notes@.len() ==> {
                &&& 0 <= (#[trigger] notes@[k]).beat <= 300_000_000_000_000
                &&& notes@[k].strength <= 1_000_000
            },
    ensures
        r@ == spec_filter_by_difficulty(notes@, difficulty),
{
    if notes.len() == 0 {
        proof {
            assert(spec_filter_by_difficulty(notes@, difficulty) =~= Seq::<ScoredNote>::empty());
        }
        return Vec::new();
    }

    // Score notes by importance.
    let mut scored: Vec<ScoredNote> = Vec::new();
    let mut i: usize = 0;
    while i < notes.len()
        invariant
            0 <= i <= notes@.len(),
            scored@ == spec_score_notes(notes@.take(i as int)),
            forall|q: int|
                0 <= q < scored@.len() ==> 0 <= (#[trigger] scored@[q]).beat
                    <= 300_000_000_000_000,
        decreases notes@.len() - i,
    {
        let n = notes[i];
        let w = compute_beat_weight(n.beat);
        proof {
            crate::fixed::lemma_mul_abs_bound(n.strength as int, w as int, 1_000_000, 1_000);
            assert(spec_score_notes(notes@.take(i + 1)) =~= spec_score_notes(
                notes@.take(i as int),
            ).push(
                ScoredNote {
                    beat: n.beat,
                    strength: n.strength,
                    importance: (n.strength * spec_beat_weight(n.beat as int)) as u64,
                },
            ));
        }
        scored.push(
            ScoredNote {
                beat: n.beat,
                strength: n.strength,
                importance: n.strength as u64 * w as u64,
            },
        );
        i = i + 1;
    }
    proof {
        assert(notes@.take(notes@.len() as int) =~= notes@);
    }

    // Percentile threshold.
    let pct = difficulty.importance_percentile();
    let mut kept: Vec<ScoredNote> = scored;
    if pct > 0 {
        proof {
            crate::fixed::lemma_mul_abs_bound(kept@.len() as int, pct as int, 10_000_000, 100);
        }
        let k: u64 = kept.len() as u64 * pct as u64 / 100;
        let ghost imps = spec_importances(kept@);

        // The smallest importance with more than k values at or below it.
        let mut best: Option<u64> = None;
        let mut j: usize = 0;
        while j < kept.len()
            invariant
                0 <= j <= kept@.len(),
                imps == spec_importances(kept@),
                match best {
                    None => spec_threshold(imps.take(j as int), imps, k as int) is None,
                    Some(b) => spec_threshold(imps.take(j as int), imps, k as int) == Some(
                        b as int,
                    ),
                },
            decreases kept@.len() - j,
        {
            proof {
                assert(imps.take(j + 1).drop_last() =~= imps.take(j as int));
                assert(imps.take(j + 1).last() == imps[j as int]);
            }
            let e = kept[j].importance;
            let mut cnt: u64 = 0;
            let mut x: usize = 0;
            while x < kept.len()
                invariant
                    0 <= x <= kept@.len(),
                    imps == spec_importances(kept@),
                    e == imps[j as int],
                    j < kept@.len(),
                    cnt == spec_count_le(imps.take(x as int), e as int),
                    cnt <= x,
                decreases kept@.len() - x,
            {
                proof {
                    assert(imps.take(x + 1).drop_last() =~= imps.take(x as int));
                    assert(imps.take(x + 1).last() == imps[x as int]);
                }
                if kept[x].importance <= e {
                    cnt = cnt + 1;
                }
                x = x + 1;
            }
            proof {
                assert(imps.take(kept@.len() as int) =~= imps);
            }
            if cnt > k {
                best = match best {
                    None => Some(e),
                    Some(m) => if e < m {
                        Some(e)
                    } else {
                        Some(m)
                    },
                };
            }
            j = j + 1;
        }
        proof {
            assert(imps.take(kept@.len() as int) =~= imps);
        }

        if let Some(t) = best {
            let mut filtered: Vec<ScoredNote> = Vec::new();
            let mut i: usize = 0;
            while i < kept.len()
                invariant
                    0 <= i <= kept@.len(),
                    filtered@ == spec_filter_ge(kept@.take(i as int), t as int),
                    forall|q: int|
                        0 <= q < kept@.len() ==> 0 <= (#[trigger] kept@[q]).beat
                            <= 300_000_000_000_000,
                    forall|q: int|
                        0 <= q < filtered@.len() ==> 0 <= (#[trigger] filtered@[q]).beat
                            <= 300_000_000_000_000,
                decreases kept@.len() - i,
            {
                proof {
                    assert(kept@.take(i + 1).drop_last() =~= kept@.take(i as int));
                    assert(kept@.take(i + 1).last() == kept@[i as int]);
                }
                if kept[i].importance >= t {
                    filtered.push(kept[i]);
                }
                i = i + 1;
            }
            proof {
                assert(kept@.take(kept@.len() as int) =~= kept@);
            }
            kept = filtered;
        }
    }

    apply_post_filter_rules(&mut kept, difficulty);
    kept
}

/// Apply the post-filter rules in place: remove the weaker of two notes
/// closer than the difficulty's minimum gap, then give every empty 4-beat
/// measure a synthetic downbeat note.
#[verifier::loop_isolation(false)]
#[verifier::rlimit(100)]
pub fn apply_post_filter_rules(notes: &mut Vec<ScoredNote>, difficulty: Difficulty)
    requires
        forall|q: int|
            0 <= q < old(notes)@.len() ==> 0 <= (#[trigger] old(notes)@[q]).beat
                <= 300_000_000_000_000,
    ensures
        final(notes)@ == spec_post_rules(old(notes)@, difficulty),
{
    let min_gap = difficulty.min_note_gap();

    // Minimum inter-note gap: drop the less important of a too-close pair.
    let mut i: usize = 1;
    while i < notes.len()
        invariant
            1 <= i,
            spec_min_gap_rule(notes@, i as int, min_gap as int) == spec_min_gap_rule(
                old(notes)@,
                1,
                min_gap as int,
            ),
            forall|q: int|
                0 <= q < notes@.len() ==> 0 <= (#[trigger] notes@[q]).beat
                    <= 300_000_000_000_000,
        decreases notes@.len() - i,
    {
        let gap: i128 = notes[i].beat as i128 - notes[i - 1].beat as i128;
        if gap < min_gap as i128 - 1_000 {
            let ghost before = notes@;
            if notes[i].importance < notes[i - 1].importance {
                notes.remove(i);
            } else {
                notes.remove(i - 1);
            }
            proof {
                assert forall|q: int|
                    0 <= q < notes@.len() implies 0 <= (#[trigger] notes@[q]).beat
                        <= 300_000_000_000_000 by {
                    if notes@.len() == before.len() - 1 {
                        assert(notes@[q] == before[q] || notes@[q] == before[q + 1]);
                    }
                }
            }
        } else {
            i = i + 1;
        }
    }

    // Ensure at least one note per 4-beat measure.
    if notes.len() >= 2 {
        let first = notes[0].beat;
        let last = notes[notes.len() - 1].beat;
        if last >= first {
            let measures: i64 = ((last as i128 - first as i128 + 3_999_999) / 4_000_000) as i64;
            proof {
                vstd::arithmetic::div_mod::lemma_div_pos_is_pos(
                    last as int - first as int + 3_999_999,
                    4_000_000,
                );
                vstd::arithmetic::div_mod::lemma_div_is_ordered(
                    last as int - first as int + 3_999_999,
                    600_000_004_000_000,
                    4_000_000,
                );
            }
            let ghost gapped = notes@;
            let mut m: i64 = 0;
            while m < measures
                invariant
                    0 <= m <= measures,
                    measures <= 150_000_001,
                    0 <= first <= 300_000_000_000_000,
                    notes@ == spec_measure_fill(gapped, first as int, m as int),
                decreases measures - m,
            {
                proof {
                    vstd::arithmetic::mul::lemma_mul_inequality(
                        m as int,
                        measures as int,
                        4_000_000,
                    );
                    vstd::arithmetic::mul::lemma_mul_nonnegative(m as int, 4_000_000);
                    assert(m as int * 4_000_000 == 4_000_000 * (m as int)) by (nonlinear_arith);
                    assert(measures as int * 4_000_000 == 4_000_000 * (measures as int))
                        by (nonlinear_arith);
                }
                let start: i64 = first + m * 4_000_000;
                let mut found = false;
                let mut pos: usize = 0;
                let mut x: usize = 0;
                while x < notes.len()
                    invariant
                        0 <= x <= notes@.len(),
                        pos == spec_count_before(notes@.take(x as int), start as int),
                        pos <= x,
                        found == exists|q: int|
                            0 <= q < x && start <= (#[trigger] notes@[q]).beat < start + 4_000_000,
                        start + 4_000_000 <= 0x7fff_ffff_ffff_ffff,
                    decreases notes@.len() - x,
                {
                    proof {
                        assert(notes@.take(x + 1).drop_last() =~= notes@.take(x as int));
                        assert(notes@.take(x + 1).last() == notes@[x as int]);
                    }
                    let b = notes[x].beat;
                    if b < start {
                        pos = pos + 1;
                    }
                    if start <= b && b < start + 4_000_000 {
                        found = true;
                    }
                    x = x + 1;
                }
                proof {
                    assert(notes@.take(notes@.len() as int) =~= notes@);
                }
                if !found {
                    notes.insert(
                        pos,
                        ScoredNote { beat: start, strength: 500_000, importance: 500_000_000 },
                    );
                }
                m = m + 1;
            }
        }
    }
}

/// Density-rating thresholds: the rating is the highest tier whose
/// 1.5-notes-per-second threshold (milli-units) the chart reaches.
pub open spec fn spec_rating_from_density(x: int) -> int {
    if x >= 10_556 {
        10
    } else if x >= 8_000 {
        9
    } else if x >= 6_063 {
        8
    } else if x >= 4_595 {
        7
    } else if x >= 3_482 {
        6
    } else if x >= 2_639 {
        5
    } else if x >= 2_000 {
        4
    } else if x >= 1_516 {
        3
    } else if x >= 1_149 {
        2
    } else {
        1
    }
}

/// The 1-10 difficulty rating of a chart by note density.
pub open spec fn spec_difficulty_rating(notes: Seq<ScoredNote>, bpm_milli: int) -> int {
    if notes.len() == 0 {
        1
    } else {
        let duration_beats = notes.last().beat - notes[0].beat;
        if duration_beats <= 0 {
            1
        } else {
            let duration_us = round_div_spec(duration_beats * 60_000, bpm_milli);
            if duration_us <= 0 {
                10
            } else {
                spec_rating_from_density(
                    round_div_spec(1_500_000_000 * notes.len() as int, duration_us),
                )
            }
        }
    }
}

/// Compute a 1-10 difficulty rating from note density (notes per second,
/// scaled 1.5x and mapped through logarithmic tiers).
pub fn compute_difficulty_rating(notes: &Vec<ScoredNote>, bpm_milli: u32) -> (r: u32)
    requires
        1 <= bpm_milli <= 1_000_000,
        notes@.len() <= 10_000_000,
        forall|k: int|
            0 <= k < notes@.len() ==> -300_000_000_000_000 <= (#[trigger] notes@[k]).beat
                <= 300_000_000_000_000,
    ensures
        r == spec_difficulty_rating(notes@, bpm_milli as int),
        1 <= r <= 10,
{
    let n = notes.len();
    if n == 0 {
        return 1;
    }
    let duration_beats: i64 = notes[n - 1].beat - notes[0].beat;
    if duration_beats <= 0 {
        return 1;
    }
    let duration_us: i128 = crate::fixed::round_div_i128(
        duration_beats as i128 * 60_000,
        bpm_milli as i128,
    );
    if duration_us <= 0 {
        return 10;
    }
    let x: i128 = crate::fixed::round_div_i128(1_500_000_000 * n as i128, duration_us);
    if x >= 10_556 {
        10
    } else if x >= 8_000 {
        9
    } else if x >= 6_063 {
        8
    } else if x >= 4_595 {
        7
    } else if x >= 3_482 {
        6
    } else if x >= 2_639 {
        5
    } else if x >= 2_000 {
        4
    } else if x >= 1_516 {
        3
    } else if x >= 1_149 {
        2
    } else {
        1
    }
}

} // verus!
