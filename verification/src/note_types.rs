//! Note-type assignment: deterministic per-difficulty typing of filtered
//! notes, driven by a seeded xorshift64 generator so the same input always
//! produces the same chart.

use vstd::prelude::*;

verus! {

use crate::chart::{ChartNoteEntry, ChartNoteType, Difficulty, SlideDirection};
use crate::difficulty::ScoredNote;
use crate::fixed::round_div_spec;

/// Seed of the note-typing generator.
pub const TYPE_RNG_SEED: u64 = 42;

/// One xorshift64 step.
pub open spec fn spec_xorshift(s: u64) -> u64 {
    let a = s ^ (s << 13);
    let b = a ^ (a >> 7);
    b ^ (b << 17)
}

/// Advance the xorshift64 generator and return its new state.
pub fn pseudo_random(state: &mut u64) -> (r: u64)
    ensures
        *final(state) == spec_xorshift(*old(state)),
        r == *final(state),
{
    let a = *state ^ (*state << 13);
    let b = a ^ (a >> 7);
    let c = b ^ (b << 17);
    *state = c;
    c
}

/// The eight directions in declaration order.
pub open spec fn spec_direction_at(i: int) -> SlideDirection {
    if i == 0 {
        SlideDirection::N
    } else if i == 1 {
        SlideDirection::NE
    } else if i == 2 {
        SlideDirection::E
    } else if i == 3 {
        SlideDirection::SE
    } else if i == 4 {
        SlideDirection::S
    } else if i == 5 {
        SlideDirection::SW
    } else if i == 6 {
        SlideDirection::W
    } else {
        SlideDirection::NW
    }
}

/// Whether a beat sits on a whole beat (within a centibeat).
pub open spec fn spec_is_downbeat(beat: int) -> bool {
    let frac = beat % 1_000_000;
    frac < 10_000 || frac > 990_000
}

/// Whether the next note follows within a sixteenth (plus tolerance).
pub open spec fn spec_is_rapid_pair(notes: Seq<ScoredNote>, idx: int) -> bool {
    idx + 1 < notes.len() && notes[idx + 1].beat - notes[idx].beat <= 260_000
}

/// Hold length: three quarters of the gap to the next note, clamped to
/// between half a beat and two beats; one beat for the last note.
pub open spec fn spec_hold_duration(notes: Seq<ScoredNote>, idx: int) -> int {
    if idx + 1 < notes.len() {
        let gap = notes[idx + 1].beat - notes[idx].beat;
        let d = round_div_spec(gap * 3, 4);
        if d > 2_000_000 {
            2_000_000
        } else if d < 500_000 {
            500_000
        } else {
            d
        }
    } else {
        1_000_000
    }
}

/// The slide direction a note rolls: its beat (milli) folded into the
/// generator's next draw.
pub open spec fn spec_slide_direction(beat: int, roll: u64) -> SlideDirection {
    let combined = (beat / 1_000) as u64 ^ roll;
    spec_direction_at((combined % 8) as int)
}

/// The type one note gets, and the generator state afterwards. Strong
/// downbeats prefer holds (or criticals on harder difficulties), rapid pairs
/// stay taps, a difficulty-scaled share of the rest become slides, and
/// Expert turns weak off-beat notes into rests.
pub open spec fn spec_pick_type(
    notes: Seq<ScoredNote>,
    idx: int,
    d: Difficulty,
    rng: u64,
) -> (ChartNoteType, u64) {
    let n = notes[idx];
    match d {
        Difficulty::Easy => {
            if n.strength > 800_000 && spec_is_downbeat(n.beat as int) {
                (
                    ChartNoteType::Hold {
                        duration_beats: spec_hold_duration(notes, idx) as i64,
                    },
                    rng,
                )
            } else {
                (ChartNoteType::Tap, rng)
            }
        },
        Difficulty::Normal => {
            let r1 = spec_xorshift(rng);
            let roll = r1 % 100;
            if n.strength > 800_000 && spec_is_downbeat(n.beat as int) {
                (
                    ChartNoteType::Hold {
                        duration_beats: spec_hold_duration(notes, idx) as i64,
                    },
                    r1,
                )
            } else if roll < 15 {
                let r2 = spec_xorshift(r1);
                (
                    ChartNoteType::Slide { direction: spec_slide_direction(n.beat as int, r2) },
                    r2,
                )
            } else {
                (ChartNoteType::Tap, r1)
            }
        },
        Difficulty::Hard => {
            let r1 = spec_xorshift(rng);
            let roll = r1 % 100;
            if n.strength > 850_000 && spec_is_downbeat(n.beat as int) {
                if roll < 40 {
                    (ChartNoteType::Critical, r1)
                } else {
                    (
                        ChartNoteType::Hold {
                            duration_beats: spec_hold_duration(notes, idx) as i64,
                        },
                        r1,
                    )
                }
            } else if spec_is_rapid_pair(notes, idx) {
                (ChartNoteType::Tap, r1)
            } else if roll < 25 {
                let r2 = spec_xorshift(r1);
                (
                    ChartNoteType::Slide { direction: spec_slide_direction(n.beat as int, r2) },
                    r2,
                )
            } else {
                (ChartNoteType::Tap, r1)
            }
        },
        Difficulty::Expert => {
            let r1 = spec_xorshift(rng);
            let roll = r1 % 100;
            if n.strength > 900_000 && spec_is_downbeat(n.beat as int) {
                if roll < 30 {
                    (ChartNoteType::Critical, r1)
                } else {
                    (
                        ChartNoteType::Hold {
                            duration_beats: spec_hold_duration(notes, idx) as i64,
                        },
                        r1,
                    )
                }
            } else if spec_is_rapid_pair(notes, idx) {
                (ChartNoteType::Tap, r1)
            } else if roll < 20 {
                let r2 = spec_xorshift(r1);
                (
                    ChartNoteType::Slide { direction: spec_slide_direction(n.beat as int, r2) },
                    r2,
                )
            } else if roll < 28 {
                let r2 = spec_xorshift(r1);
                (
                    ChartNoteType::Slide { direction: spec_slide_direction(n.beat as int, r2) },
                    r2,
                )
            } else if roll < 33 {
                (ChartNoteType::Critical, r1)
            } else if roll < 38 && n.strength < 300_000 {
                (ChartNoteType::Rest, r1)
            } else {
                (ChartNoteType::Tap, r1)
            }
        },
    }
}

/// The typed entries for the first `i` notes, with the generator state
/// threaded through from its fixed seed.
pub open spec fn spec_assign_upto(notes: Seq<ScoredNote>, d: Difficulty, i: int) -> (
    Seq<ChartNoteEntry>,
    u64,
)
    decreases i,
{
    if i <= 0 {
        (Seq::<ChartNoteEntry>::empty(), TYPE_RNG_SEED)
    } else {
        let p = spec_assign_upto(notes, d, i - 1);
        let st = spec_pick_type(notes, i - 1, d, p.1);
        (p.0.push(ChartNoteEntry { beat: notes[i - 1].beat, note_type: st.0 }), st.1)
    }
}

/// Pick the slide direction for a note beat and a generator draw.
fn pick_slide_direction(beat: i64, roll: u64) -> (r: SlideDirection)
    requires
        beat >= 0,
    ensures
        r == spec_slide_direction(beat as int, roll),
{
    let combined: u64 = (beat / 1_000) as u64 ^ roll;
    let sector = combined % 8;
    if sector == 0 {
        SlideDirection::N
    } else if sector == 1 {
        SlideDirection::NE
    } else if sector == 2 {
        SlideDirection::E
    } else if sector == 3 {
        SlideDirection::SE
    } else if sector == 4 {
        SlideDirection::S
    } else if sector == 5 {
        SlideDirection::SW
    } else if sector == 6 {
        SlideDirection::W
    } else {
        SlideDirection::NW
    }
}

/// Hold length for the note at `idx`, micro-beats.
fn hold_duration(notes: &Vec<ScoredNote>, idx: usize) -> (r: i64)
    requires
        idx < notes@.len(),
        forall|k: int|
            0 <= k < notes@.len() ==> 0 <= (#[trigger] notes@[k]).beat <= 400_000_000_000_000,
    ensures
        r == spec_hold_duration(notes@, idx as int),
{
    let n = notes.len();
    if idx + 1 < n {
        let gap: i64 = notes[idx + 1].beat - notes[idx].beat;
        let d: i64 = crate::fixed::round_div_i128(gap as i128 * 3, 4) as i64;
        if d > 2_000_000 {
            2_000_000
        } else if d < 500_000 {
            500_000
        } else {
            d
        }
    } else {
        1_000_000
    }
}

/// The type one note gets, advancing the shared generator.
pub fn pick_note_type(
    notes: &Vec<ScoredNote>,
    idx: usize,
    difficulty: Difficulty,
    rng: &mut u64,
) -> (r: ChartNoteType)
    requires
        idx < notes@.len(),
        forall|k: int|
            0 <= k < notes@.len() ==> 0 <= (#[trigger] notes@[k]).beat <= 400_000_000_000_000,
    ensures
        r == spec_pick_type(notes@, idx as int, difficulty, *old(rng)).0,
        *final(rng) == spec_pick_type(notes@, idx as int, difficulty, *old(rng)).1,
{
    let n = notes.len();
    let note = notes[idx];
    let frac = note.beat % 1_000_000;
    let downbeat = frac < 10_000 || frac > 990_000;
    match difficulty {
        Difficulty::Easy => {
            if note.strength > 800_000 && downbeat {
                ChartNoteType::Hold { duration_beats: hold_duration(notes, idx) }
            } else {
                ChartNoteType::Tap
            }
        },
        Difficulty::Normal => {
            let roll = pseudo_random(rng) % 100;
            if note.strength > 800_000 && downbeat {
                ChartNoteType::Hold { duration_beats: hold_duration(notes, idx) }
            } else if roll < 15 {
                let r2 = pseudo_random(rng);
                ChartNoteType::Slide { direction: pick_slide_direction(note.beat, r2) }
            } else {
                ChartNoteType::Tap
            }
        },
        Difficulty::Hard => {
            let roll = pseudo_random(rng) % 100;
            let rapid = idx + 1 < n && notes[idx + 1].beat - notes[idx].beat <= 260_000;
            if note.strength > 850_000 && downbeat {
                if roll < 40 {
                    ChartNoteType::Critical
                } else {
                    ChartNoteType::Hold { duration_beats: hold_duration(notes, idx) }
                }
            } else if rapid {
                ChartNoteType::Tap
            } else if roll < 25 {
                let r2 = pseudo_random(rng);
                ChartNoteType::Slide { direction: pick_slide_direction(note.beat, r2) }
            } else {
                ChartNoteType::Tap
            }
        },
        Difficulty::Expert => {
            let roll = pseudo_random(rng) % 100;
            let rapid = idx + 1 < n && notes[idx + 1].beat - notes[idx].beat <= 260_000;
            if note.strength > 900_000 && downbeat {
                if roll < 30 {
                    ChartNoteType::Critical
                } else {
                    ChartNoteType::Hold { duration_beats: hold_duration(notes, idx) }
                }
            } else if rapid {
                ChartNoteType::Tap
            } else if roll < 20 {
                let r2 = pseudo_random(rng);
                ChartNoteType::Slide { direction: pick_slide_direction(note.beat, r2) }
            } else if roll < 28 {
                let r2 = pseudo_random(rng);
                ChartNoteType::Slide { direction: pick_slide_direction(note.beat, r2) }
            } else if roll < 33 {
                ChartNoteType::Critical
            } else if roll < 38 && note.strength < 300_000 {
                ChartNoteType::Rest
            } else {
                ChartNoteType::Tap
            }
        },
    }
}

/// Assign a note type to every filtered note, in order, from the fixed
/// generator seed: the same notes and difficulty always give the same chart.
pub fn assign_note_types(notes: &Vec<ScoredNote>, difficulty: Difficulty) -> (r: Vec<
    ChartNoteEntry,
>)
    requires
        forall|k: int|
            0 <= k < notes@.len() ==> 0 <= (#[trigger] notes@[k]).beat <= 400_000_000_000_000,
    ensures
        r@ == spec_assign_upto(notes@, difficulty, notes@.len() as int).0,
{
    let mut entries: Vec<ChartNoteEntry> = Vec::new();
    let mut rng: u64 = TYPE_RNG_SEED;
    let mut i: usize = 0;
    while i < notes.len()
        invariant
            0 <= i <= notes@.len(),
            forall|k: int|
                0 <= k < notes@.len() ==> 0 <= (#[trigger] notes@[k]).beat
                    <= 400_000_000_000_000,
            entries@ == spec_assign_upto(notes@, difficulty, i as int).0,
            rng == spec_assign_upto(notes@, difficulty, i as int).1,
        decreases notes@.len() - i,
    {
        let t = pick_note_type(notes, i, difficulty, &mut rng);
        entries.push(ChartNoteEntry { beat: notes[i].beat, note_type: t });
        i = i + 1;
    }
    entries
}

} // verus!
