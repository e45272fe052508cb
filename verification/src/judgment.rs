//! Hit-window classification: grades an input by how far (in time) it landed
//! from a note's target beat.
//!
//! Windows are symmetric around the target: GREAT within 20 ms, COOL within
//! 50 ms, GOOD within 100 ms; anything later than 100 ms past the target is a
//! miss. Beat distances are converted to time through the current BPM.

use vstd::prelude::*;

verus! {

use crate::chart::SlideDirection;
use crate::fixed::round_div_spec;
use crate::input::{CriticalInput, SlideInput, TapInput, INPUT_BEAT_ABS};
use crate::notes::{spec_live_note_wf, spec_live_notes_wf, HoldState, LiveNote, NoteKind};

/// GREAT window half-width, microseconds.
pub const GREAT_WINDOW_US: i64 = 20_000;

/// COOL window half-width, microseconds.
pub const COOL_WINDOW_US: i64 = 50_000;

/// GOOD window half-width, microseconds; also the miss window.
pub const GOOD_WINDOW_US: i64 = 100_000;

/// Grade of a judged note.
#[derive(Debug, Clone, Copy, PartialEq, Eq, Structural)]
pub enum Judgment {
    Great,
    Cool,
    Good,
    Miss,
}

impl Judgment {
    /// Display label for the grade.
    pub fn label(&self) -> (r: &'static str) {
        match self {
            Judgment::Great => "GREAT",
            Judgment::Cool => "COOL",
            Judgment::Good => "GOOD",
            Judgment::Miss => "MISS",
        }
    }
}

/// A judgment together with the track position where its feedback appears
/// (micro-pixels).
#[derive(Debug, Clone, Copy, PartialEq, Eq, Structural)]
pub struct JudgmentResult {
    pub judgment: Judgment,
    pub position_x: i64,
    pub position_y: i64,
}

/// Microseconds covered by `beats` micro-beats at `bpm_milli` milli-BPM:
/// `beats * 60_000 / bpm`, rounded to nearest.
pub open spec fn beats_to_micros_spec(beats: int, bpm_milli: int) -> int {
    round_div_spec(beats * 60_000, bpm_milli)
}

/// Micro-beats covered by `us` microseconds at `bpm_milli` milli-BPM:
/// `us * bpm / 60_000`, rounded to nearest.
pub open spec fn micros_to_beats_spec(us: int, bpm_milli: int) -> int {
    round_div_spec(us * bpm_milli, 60_000)
}

/// Convert a beat distance (micro-beats) to time (microseconds) at the given
/// tempo.
pub fn beats_to_micros(beats: i64, bpm_milli: u32) -> (r: i64)
    requires
        bpm_milli > 0,
        -4_000_000_000_000 <= beats <= 4_000_000_000_000,
    ensures
        r == beats_to_micros_spec(beats as int, bpm_milli as int),
{
    let wide: i128 = beats as i128 * 60_000;
    let r: i128 = crate::fixed::round_div_i128(wide, bpm_milli as i128);
    r as i64
}

/// Convert a time distance (microseconds) to beats (micro-beats) at the given
/// tempo.
pub fn micros_to_beats(us: i64, bpm_milli: u32) -> (r: i64)
    requires
        bpm_milli > 0,
        -2_000_000_000_000 <= us <= 2_000_000_000_000,
    ensures
        r == micros_to_beats_spec(us as int, bpm_milli as int),
        -150_000_000_000_000_000 <= r <= 150_000_000_000_000_000,
{
    proof {
        crate::fixed::lemma_mul_abs_bound(
            us as int,
            bpm_milli as int,
            2_000_000_000_000,
            0x1_0000_0000,
        );
    }
    let wide: i128 = us as i128 * bpm_milli as i128;
    let r: i128 = crate::fixed::round_div_i128(wide, 60_000);
    proof {
        if wide >= 0 {
            crate::fixed::lemma_round_div_le(wide as int, 60_000, 150_000_000_000_000_000);
        } else {
            crate::fixed::lemma_round_div_le(-(wide as int), 60_000, 150_000_000_000_000_000);
        }
    }
    r as i64
}

/// The grade a timing distance earns, if it is inside any window.
pub open spec fn grade_timing_spec(abs_diff_us: int) -> Option<Judgment> {
    if abs_diff_us <= GREAT_WINDOW_US {
        Some(Judgment::Great)
    } else if abs_diff_us <= COOL_WINDOW_US {
        Some(Judgment::Cool)
    } else if abs_diff_us <= GOOD_WINDOW_US {
        Some(Judgment::Good)
    } else {
        None
    }
}

/// Classify an absolute timing distance (microseconds) into a grade, or
/// `None` when it falls outside every hit window.
pub fn grade_timing(abs_diff_us: i64) -> (r: Option<Judgment>)
    requires
        abs_diff_us >= 0,
    ensures
        r == grade_timing_spec(abs_diff_us as int),
{
    if abs_diff_us <= GREAT_WINDOW_US {
        Some(Judgment::Great)
    } else if abs_diff_us <= COOL_WINDOW_US {
        Some(Judgment::Cool)
    } else if abs_diff_us <= GOOD_WINDOW_US {
        Some(Judgment::Good)
    } else {
        None
    }
}

/// Which notes one input gesture may consume.
#[derive(Debug, Clone, Copy, PartialEq, Eq, Structural)]
pub enum InputClass {
    Critical,
    Slide(SlideDirection),
    Tap,
}

/// Whether a live note can be consumed by an input of the given class. Taps
/// hit tap notes, rests, and the pending heads of holds.
pub open spec fn spec_eligible(c: InputClass, n: LiveNote) -> bool {
    match c {
        InputClass::Critical => n.kind == NoteKind::Critical,
        InputClass::Slide(d) => n.kind == NoteKind::Slide(d),
        InputClass::Tap => match n.kind {
            NoteKind::Tap => true,
            NoteKind::Rest => true,
            NoteKind::Hold { .. } => n.hold_state == HoldState::Pending,
            _ => false,
        },
    }
}

fn eligible(c: InputClass, n: &LiveNote) -> (r: bool)
    ensures
        r == spec_eligible(c, *n),
{
    match c {
        InputClass::Critical => n.kind == NoteKind::Critical,
        InputClass::Slide(d) => match n.kind {
            NoteKind::Slide(nd) => nd == d,
            _ => false,
        },
        InputClass::Tap => match n.kind {
            NoteKind::Tap => true,
            NoteKind::Rest => true,
            NoteKind::Hold { .. } => n.hold_state == HoldState::Pending,
            _ => false,
        },
    }
}

/// Absolute time distance (microseconds) between an input beat and a note's
/// target beat at the given tempo.
pub open spec fn spec_abs_diff_us(target_beat: int, input_beat: int, bpm_milli: int) -> int {
    let d = if input_beat >= target_beat {
        input_beat - target_beat
    } else {
        target_beat - input_beat
    };
    beats_to_micros_spec(d, bpm_milli)
}

/// The note an input consumes: among eligible notes inside the GOOD window,
/// the one with the smallest time distance; on a tie, the earliest in the
/// set.
pub open spec fn spec_best_match(
    notes: Seq<LiveNote>,
    c: InputClass,
    input_beat: int,
    bpm_milli: int,
) -> Option<int>
    decreases notes.len(),
{
    if notes.len() == 0 {
        None
    } else {
        let prefix = spec_best_match(notes.drop_last(), c, input_beat, bpm_milli);
        let i = notes.len() - 1;
        let d = spec_abs_diff_us(notes.last().target_beat as int, input_beat, bpm_milli);
        let ok = spec_eligible(c, notes.last()) && d <= GOOD_WINDOW_US;
        match prefix {
            Some(j) => if ok && d < spec_abs_diff_us(
                notes[j].target_beat as int,
                input_beat,
                bpm_milli,
            ) {
                Some(i as int)
            } else {
                Some(j)
            },
            None => if ok {
                Some(i as int)
            } else {
                None
            },
        }
    }
}

/// The grade an input earns against a note it consumed.
pub open spec fn spec_grade_for(target_beat: int, input_beat: int, bpm_milli: int) -> Judgment {
    match grade_timing_spec(spec_abs_diff_us(target_beat, input_beat, bpm_milli)) {
        Some(g) => g,
        None => Judgment::Miss,
    }
}

/// What one input does to the live set: nothing if no note matches;
/// otherwise the matched note is consumed. A matched rest is a Miss (rests
/// reward non-action), a matched pending hold head turns `Held` and stays
/// alive, anything else despawns with its timing grade.
pub open spec fn spec_step_input(
    notes: Seq<LiveNote>,
    c: InputClass,
    input_beat: int,
    bpm_milli: int,
) -> (Seq<LiveNote>, Option<Judgment>) {
    match spec_best_match(notes, c, input_beat, bpm_milli) {
        None => (notes, None::<Judgment>),
        Some(i) => {
            let n = notes[i];
            let g = spec_grade_for(n.target_beat as int, input_beat, bpm_milli);
            if c == InputClass::Tap && n.kind == NoteKind::Rest {
                (notes.remove(i), Some(Judgment::Miss))
            } else if c == InputClass::Tap && (n.kind matches NoteKind::Hold { .. }) {
                (
                    notes.update(i, LiveNote { hold_state: HoldState::Held, ..n }),
                    Some(g),
                )
            } else {
                (notes.remove(i), Some(g))
            }
        },
    }
}

/// Find the note an input of class `c` consumes, per `spec_best_match`.
fn find_best(notes: &Vec<LiveNote>, c: InputClass, input_beat: i64, bpm_milli: u32) -> (r: Option<
    usize,
>)
    requires
        spec_live_notes_wf(notes@),
        1 <= bpm_milli <= 1_000_000,
        -INPUT_BEAT_ABS <= input_beat <= INPUT_BEAT_ABS,
    ensures
        match r {
            None => spec_best_match(notes@, c, input_beat as int, bpm_milli as int) is None,
            Some(i) => i < notes@.len() && spec_best_match(
                notes@,
                c,
                input_beat as int,
                bpm_milli as int,
            ) == Some(i as int),
        },
{
    let mut best: Option<usize> = None;
    let mut best_diff: i64 = 0;
    let n = notes.len();
    let mut i: usize = 0;
    while i < n
        invariant
            n == notes@.len(),
            0 <= i <= n,
            spec_live_notes_wf(notes@),
            1 <= bpm_milli <= 1_000_000,
            -INPUT_BEAT_ABS <= input_beat <= INPUT_BEAT_ABS,
            match best {
                None => spec_best_match(
                    notes@.take(i as int),
                    c,
                    input_beat as int,
                    bpm_milli as int,
                ) is None,
                Some(j) => {
                    &&& j < i
                    &&& spec_best_match(
                        notes@.take(i as int),
                        c,
                        input_beat as int,
                        bpm_milli as int,
                    ) == Some(j as int)
                    &&& best_diff == spec_abs_diff_us(
                        notes@[j as int].target_beat as int,
                        input_beat as int,
                        bpm_milli as int,
                    )
                },
            },
        decreases n - i,
    {
        proof {
            assert(notes@.take(i + 1).drop_last() =~= notes@.take(i as int));
            assert(notes@.take(i + 1).last() == notes@[i as int]);
            assert(spec_live_note_wf(notes@[i as int]));
        }
        let note = notes[i];
        let diff_beats: i64 = if input_beat >= note.target_beat {
            input_beat - note.target_beat
        } else {
            note.target_beat - input_beat
        };
        let d = beats_to_micros(diff_beats, bpm_milli);
        let ok = eligible(c, &note) && d <= GOOD_WINDOW_US;
        if ok {
            match best {
                None => {
                    best = Some(i);
                    best_diff = d;
                },
                Some(_) => {
                    if d < best_diff {
                        best = Some(i);
                        best_diff = d;
                    }
                },
            }
        }
        i = i + 1;
    }
    proof {
        assert(notes@.take(n as int) =~= notes@);
    }
    best
}

/// Apply one input gesture to the live set, per `spec_step_input`.
pub fn judge_input(notes: &mut Vec<LiveNote>, c: InputClass, input_beat: i64, bpm_milli: u32) -> (r:
    Option<Judgment>)
    requires
        spec_live_notes_wf(old(notes)@),
        1 <= bpm_milli <= 1_000_000,
        -INPUT_BEAT_ABS <= input_beat <= INPUT_BEAT_ABS,
    ensures
        final(notes)@ == spec_step_input(old(notes)@, c, input_beat as int, bpm_milli as int).0,
        r == spec_step_input(old(notes)@, c, input_beat as int, bpm_milli as int).1,
        spec_live_notes_wf(final(notes)@),
{
    let found = find_best(notes, c, input_beat, bpm_milli);
    match found {
        None => None,
        Some(i) => {
            let note = notes[i];
            proof {
                assert(spec_live_note_wf(notes@[i as int]));
            }
            let diff_beats: i64 = if input_beat >= note.target_beat {
                input_beat - note.target_beat
            } else {
                note.target_beat - input_beat
            };
            let d = beats_to_micros(diff_beats, bpm_milli);
            let g = match grade_timing(d) {
                Some(g) => g,
                None => Judgment::Miss,
            };
            let is_tap = match c {
                InputClass::Tap => true,
                _ => false,
            };
            let is_rest = match note.kind {
                NoteKind::Rest => true,
                _ => false,
            };
            let is_hold = match note.kind {
                NoteKind::Hold { .. } => true,
                _ => false,
            };
            if is_tap && is_rest {
                notes.remove(i);
                proof {
                    lemma_remove_preserves_wf(old(notes)@, i as int);
                }
                Some(Judgment::Miss)
            } else if is_tap && is_hold {
                notes.set(i, LiveNote { hold_state: HoldState::Held, ..note });
                proof {
                    assert(spec_live_notes_wf(notes@)) by {
                        assert(forall|k: int|
                            0 <= k < notes@.len() && k != i ==> #[trigger] notes@[k] == old(
                                notes,
                            )@[k]);
                    }
                }
                Some(g)
            } else {
                notes.remove(i);
                proof {
                    lemma_remove_preserves_wf(old(notes)@, i as int);
                }
                Some(g)
            }
        },
    }
}

/// Removing one note keeps every remaining note well formed.
proof fn lemma_remove_preserves_wf(s: Seq<LiveNote>, i: int)
    requires
        spec_live_notes_wf(s),
        0 <= i < s.len(),
    ensures
        spec_live_notes_wf(s.remove(i)),
{
    assert forall|k: int| 0 <= k < s.remove(i).len() implies spec_live_note_wf(
        #[trigger] s.remove(i)[k],
    ) by {
        if k < i {
            assert(s.remove(i)[k] == s[k]);
        } else {
            assert(s.remove(i)[k] == s[k + 1]);
        }
    }
}

/// The live set and judgments after a batch of critical inputs, in order.
pub open spec fn spec_run_criticals(
    notes: Seq<LiveNote>,
    inputs: Seq<CriticalInput>,
    bpm_milli: int,
) -> (Seq<LiveNote>, Seq<Judgment>)
    decreases inputs.len(),
{
    if inputs.len() == 0 {
        (notes, Seq::<Judgment>::empty())
    } else {
        let prev = spec_run_criticals(notes, inputs.drop_last(), bpm_milli);
        let st = spec_step_input(prev.0, InputClass::Critical, inputs.last().beat as int, bpm_milli);
        (
            st.0,
            match st.1 {
                Some(g) => prev.1.push(g),
                None => prev.1,
            },
        )
    }
}

/// The live set and judgments after a batch of slide inputs, in order.
pub open spec fn spec_run_slides(
    notes: Seq<LiveNote>,
    inputs: Seq<SlideInput>,
    bpm_milli: int,
) -> (Seq<LiveNote>, Seq<Judgment>)
    decreases inputs.len(),
{
    if inputs.len() == 0 {
        (notes, Seq::<Judgment>::empty())
    } else {
        let prev = spec_run_slides(notes, inputs.drop_last(), bpm_milli);
        let st = spec_step_input(
            prev.0,
            InputClass::Slide(inputs.last().direction),
            inputs.last().beat as int,
            bpm_milli,
        );
        (
            st.0,
            match st.1 {
                Some(g) => prev.1.push(g),
                None => prev.1,
            },
        )
    }
}

/// The live set and judgments after a batch of tap inputs, in order.
pub open spec fn spec_run_taps(
    notes: Seq<LiveNote>,
    inputs: Seq<TapInput>,
    bpm_milli: int,
) -> (Seq<LiveNote>, Seq<Judgment>)
    decreases inputs.len(),
{
    if inputs.len() == 0 {
        (notes, Seq::<Judgment>::empty())
    } else {
        let prev = spec_run_taps(notes, inputs.drop_last(), bpm_milli);
        let st = spec_step_input(prev.0, InputClass::Tap, inputs.last().beat as int, bpm_milli);
        (
            st.0,
            match st.1 {
                Some(g) => prev.1.push(g),
                None => prev.1,
            },
        )
    }
}

/// One frame of hit matching: critical inputs first (most specific), then
/// directional slides, then taps; judgments in that order.
pub open spec fn spec_check_hits(
    notes: Seq<LiveNote>,
    criticals: Seq<CriticalInput>,
    slides: Seq<SlideInput>,
    taps: Seq<TapInput>,
    bpm_milli: int,
) -> (Seq<LiveNote>, Seq<Judgment>) {
    let a = spec_run_criticals(notes, criticals, bpm_milli);
    let b = spec_run_slides(a.0, slides, bpm_milli);
    let c = spec_run_taps(b.0, taps, bpm_milli);
    (c.0, a.1 + b.1 + c.1)
}

/// The grades carried by a list of judgment results.
pub open spec fn spec_judgments_of(rs: Seq<JudgmentResult>) -> Seq<Judgment> {
    rs.map_values(|r: JudgmentResult| r.judgment)
}

/// Consume one frame's inputs against the live note set. Critical inputs
/// are matched first, then directional slides, then taps; each consumes the
/// nearest-in-time unconsumed eligible note within the GOOD window.
/// `position` is the spline position (micro-pixels) stamped onto the
/// feedback.
pub fn check_hits(
    notes: &mut Vec<LiveNote>,
    criticals: &Vec<CriticalInput>,
    slides: &Vec<SlideInput>,
    taps: &Vec<TapInput>,
    bpm_milli: u32,
    position: (i64, i64),
) -> (results: Vec<JudgmentResult>)
    requires
        spec_live_notes_wf(old(notes)@),
        1 <= bpm_milli <= 1_000_000,
        forall|i: int|
            0 <= i < criticals@.len() ==> -INPUT_BEAT_ABS <= (#[trigger] criticals@[i]).beat
                <= INPUT_BEAT_ABS,
        forall|i: int|
            0 <= i < slides@.len() ==> -INPUT_BEAT_ABS <= (#[trigger] slides@[i]).beat
                <= INPUT_BEAT_ABS,
        forall|i: int|
            0 <= i < taps@.len() ==> -INPUT_BEAT_ABS <= (#[trigger] taps@[i]).beat
                <= INPUT_BEAT_ABS,
    ensures
        final(notes)@ == spec_check_hits(
            old(notes)@,
            criticals@,
            slides@,
            taps@,
            bpm_milli as int,
        ).0,
        spec_judgments_of(results@) == spec_check_hits(
            old(notes)@,
            criticals@,
            slides@,
            taps@,
            bpm_milli as int,
        ).1,
        spec_live_notes_wf(final(notes)@),
        forall|i: int|
            0 <= i < results@.len() ==> (#[trigger] results@[i]).position_x == position.0
                && results@[i].position_y == position.1,
{
    let mut results: Vec<JudgmentResult> = Vec::new();
    let ghost notes0 = notes@;

    let mut i: usize = 0;
    while i < criticals.len()
        invariant
            0 <= i <= criticals@.len(),
            spec_live_notes_wf(notes@),
            1 <= bpm_milli <= 1_000_000,
            forall|k: int|
                0 <= k < criticals@.len() ==> -INPUT_BEAT_ABS <= (#[trigger] criticals@[k]).beat
                    <= INPUT_BEAT_ABS,
            notes@ == spec_run_criticals(notes0, criticals@.take(i as int), bpm_milli as int).0,
            spec_judgments_of(results@) == spec_run_criticals(
                notes0,
                criticals@.take(i as int),
                bpm_milli as int,
            ).1,
            forall|k: int|
                0 <= k < results@.len() ==> (#[trigger] results@[k]).position_x == position.0
                    && results@[k].position_y == position.1,
        decreases criticals@.len() - i,
    {
        proof {
            assert(criticals@.take(i + 1).drop_last() =~= criticals@.take(i as int));
            assert(criticals@.take(i + 1).last() == criticals@[i as int]);
        }
        let input = criticals[i];
        let j = judge_input(notes, InputClass::Critical, input.beat, bpm_milli);
        if let Some(g) = j {
            results.push(JudgmentResult { judgment: g, position_x: position.0, position_y: position.1 });
            proof {
                assert(spec_judgments_of(results@) =~= spec_judgments_of(
                    results@.drop_last(),
                ).push(g));
            }
        }
        i = i + 1;
    }
    proof {
        assert(criticals@.take(criticals@.len() as int) =~= criticals@);
    }
    let ghost notes1 = notes@;
    let ghost judg1 = spec_judgments_of(results@);

    let mut i: usize = 0;
    while i < slides.len()
        invariant
            0 <= i <= slides@.len(),
            spec_live_notes_wf(notes@),
            1 <= bpm_milli <= 1_000_000,
            forall|k: int|
                0 <= k < slides@.len() ==> -INPUT_BEAT_ABS <= (#[trigger] slides@[k]).beat
                    <= INPUT_BEAT_ABS,
            notes@ == spec_run_slides(notes1, slides@.take(i as int), bpm_milli as int).0,
            spec_judgments_of(results@) == judg1 + spec_run_slides(
                notes1,
                slides@.take(i as int),
                bpm_milli as int,
            ).1,
            forall|k: int|
                0 <= k < results@.len() ==> (#[trigger] results@[k]).position_x == position.0
                    && results@[k].position_y == position.1,
        decreases slides@.len() - i,
    {
        proof {
            assert(slides@.take(i + 1).drop_last() =~= slides@.take(i as int));
            assert(slides@.take(i + 1).last() == slides@[i as int]);
        }
        let input = slides[i];
        let j = judge_input(notes, InputClass::Slide(input.direction), input.beat, bpm_milli);
        if let Some(g) = j {
            results.push(JudgmentResult { judgment: g, position_x: position.0, position_y: position.1 });
            proof {
                assert(spec_judgments_of(results@) =~= spec_judgments_of(
                    results@.drop_last(),
                ).push(g));
                assert(judg1 + spec_run_slides(notes1, slides@.take(i + 1), bpm_milli as int).1
                    =~= (judg1 + spec_run_slides(notes1, slides@.take(i as int), bpm_milli as int).1).push(g));
            }
        }
        i = i + 1;
    }
    proof {
        assert(slides@.take(slides@.len() as int) =~= slides@);
    }
    let ghost notes2 = notes@;
    let ghost judg2 = spec_judgments_of(results@);

    let mut i: usize = 0;
    while i < taps.len()
        invariant
            0 <= i <= taps@.len(),
            spec_live_notes_wf(notes@),
            1 <= bpm_milli <= 1_000_000,
            forall|k: int|
                0 <= k < taps@.len() ==> -INPUT_BEAT_ABS <= (#[trigger] taps@[k]).beat
                    <= INPUT_BEAT_ABS,
            notes@ == spec_run_taps(notes2, taps@.take(i as int), bpm_milli as int).0,
            spec_judgments_of(results@) == judg2 + spec_run_taps(
                notes2,
                taps@.take(i as int),
                bpm_milli as int,
            ).1,
            forall|k: int|
                0 <= k < results@.len() ==> (#[trigger] results@[k]).position_x == position.0
                    && results@[k].position_y == position.1,
        decreases taps@.len() - i,
    {
        proof {
            assert(taps@.take(i + 1).drop_last() =~= taps@.take(i as int));
            assert(taps@.take(i + 1).last() == taps@[i as int]);
        }
        let input = taps[i];
        let j = judge_input(notes, InputClass::Tap, input.beat, bpm_milli);
        if let Some(g) = j {
            results.push(JudgmentResult { judgment: g, position_x: position.0, position_y: position.1 });
            proof {
                assert(spec_judgments_of(results@) =~= spec_judgments_of(
                    results@.drop_last(),
                ).push(g));
                assert(judg2 + spec_run_taps(notes2, taps@.take(i + 1), bpm_milli as int).1
                    =~= (judg2 + spec_run_taps(notes2, taps@.take(i as int), bpm_milli as int).1).push(g));
            }
        }
        i = i + 1;
    }
    proof {
        assert(taps@.take(taps@.len() as int) =~= taps@);
        assert(spec_judgments_of(results@) =~= spec_check_hits(
            notes0,
            criticals@,
            slides@,
            taps@,
            bpm_milli as int,
        ).1);
    }
    results
}

/// What one frame of the hold state machine does to one note. Only holds in
/// `Held` state are touched: a release inside the GOOD window of the tail
/// completes the hold with the release grade; an early release drops it with
/// a tail Miss; holding through past the tail window completes it as Great.
/// `(kept, judgment)`.
pub open spec fn spec_step_hold(
    n: LiveNote,
    tap_held: bool,
    current_beat: int,
    bpm_milli: int,
) -> (bool, Option<Judgment>) {
    match n.kind {
        NoteKind::Hold { end_beat } => {
            if n.hold_state == HoldState::Held {
                let d = spec_abs_diff_us(end_beat as int, current_beat, bpm_milli);
                if !tap_held {
                    if d <= GOOD_WINDOW_US {
                        (false, Some(spec_grade_for(end_beat as int, current_beat, bpm_milli)))
                    } else {
                        (false, Some(Judgment::Miss))
                    }
                } else if current_beat > end_beat && d > GOOD_WINDOW_US {
                    (false, Some(Judgment::Great))
                } else {
                    (true, None::<Judgment>)
                }
            } else {
                (true, None::<Judgment>)
            }
        },
        _ => (true, None::<Judgment>),
    }
}

/// The live set and tail judgments after one frame of the hold state
/// machine, notes visited in order.
pub open spec fn spec_check_holds(
    notes: Seq<LiveNote>,
    tap_held: bool,
    current_beat: int,
    bpm_milli: int,
) -> (Seq<LiveNote>, Seq<Judgment>)
    decreases notes.len(),
{
    if notes.len() == 0 {
        (Seq::<LiveNote>::empty(), Seq::<Judgment>::empty())
    } else {
        let prev = spec_check_holds(notes.drop_last(), tap_held, current_beat, bpm_milli);
        let st = spec_step_hold(notes.last(), tap_held, current_beat, bpm_milli);
        (
            if st.0 {
                prev.0.push(notes.last())
            } else {
                prev.0
            },
            match st.1 {
                Some(g) => prev.1.push(g),
                None => prev.1,
            },
        )
    }
}

/// One frame of the hold state machine over the live set. `tap_held` is
/// whether the tap control is still pressed this frame.
pub fn check_holds(
    notes: &mut Vec<LiveNote>,
    tap_held: bool,
    current_beat: i64,
    bpm_milli: u32,
    position: (i64, i64),
) -> (results: Vec<JudgmentResult>)
    requires
        spec_live_notes_wf(old(notes)@),
        1 <= bpm_milli <= 1_000_000,
        -2_000_000_000_000 <= current_beat <= 2_000_000_000_000,
    ensures
        final(notes)@ == spec_check_holds(
            old(notes)@,
            tap_held,
            current_beat as int,
            bpm_milli as int,
        ).0,
        spec_judgments_of(results@) == spec_check_holds(
            old(notes)@,
            tap_held,
            current_beat as int,
            bpm_milli as int,
        ).1,
        spec_live_notes_wf(final(notes)@),
        forall|i: int|
            0 <= i < results@.len() ==> (#[trigger] results@[i]).position_x == position.0
                && results@[i].position_y == position.1,
{
    let mut kept: Vec<LiveNote> = Vec::new();
    let mut results: Vec<JudgmentResult> = Vec::new();
    let n = notes.len();
    let mut i: usize = 0;
    while i < n
        invariant
            n == notes@.len(),
            0 <= i <= n,
            notes@ == old(notes)@,
            spec_live_notes_wf(notes@),
            1 <= bpm_milli <= 1_000_000,
            -2_000_000_000_000 <= current_beat <= 2_000_000_000_000,
            kept@ == spec_check_holds(
                notes@.take(i as int),
                tap_held,
                current_beat as int,
                bpm_milli as int,
            ).0,
            spec_judgments_of(results@) == spec_check_holds(
                notes@.take(i as int),
                tap_held,
                current_beat as int,
                bpm_milli as int,
            ).1,
            spec_live_notes_wf(kept@),
            forall|k: int|
                0 <= k < results@.len() ==> (#[trigger] results@[k]).position_x == position.0
                    && results@[k].position_y == position.1,
        decreases n - i,
    {
        proof {
            assert(notes@.take(i + 1).drop_last() =~= notes@.take(i as int));
            assert(notes@.take(i + 1).last() == notes@[i as int]);
            assert(spec_live_note_wf(notes@[i as int]));
        }
        let note = notes[i];
        let mut keep = true;
        let mut judgment: Option<Judgment> = None;
        match note.kind {
            NoteKind::Hold { end_beat } => {
                if note.hold_state == HoldState::Held {
                    let diff_beats: i64 = if current_beat >= end_beat {
                        current_beat - end_beat
                    } else {
                        end_beat - current_beat
                    };
                    let d = beats_to_micros(diff_beats, bpm_milli);
                    if !tap_held {
                        keep = false;
                        if d <= GOOD_WINDOW_US {
                            judgment = match grade_timing(d) {
                                Some(g) => Some(g),
                                None => Some(Judgment::Miss),
                            };
                        } else {
                            judgment = Some(Judgment::Miss);
                        }
                    } else if current_beat > end_beat && d > GOOD_WINDOW_US {
                        keep = false;
                        judgment = Some(Judgment::Great);
                    }
                }
            },
            _ => {},
        }
        if keep {
            kept.push(note);
        }
        if let Some(g) = judgment {
            results.push(
                JudgmentResult { judgment: g, position_x: position.0, position_y: position.1 },
            );
            proof {
                assert(spec_judgments_of(results@) =~= spec_judgments_of(
                    results@.drop_last(),
                ).push(g));
            }
        }
        i = i + 1;
    }
    proof {
        assert(notes@.take(n as int) =~= notes@);
    }
    *notes = kept;
    results
}

/// The miss window, micro-beats at the given tempo.
pub open spec fn spec_miss_window_beats(bpm_milli: int) -> int {
    micros_to_beats_spec(GOOD_WINDOW_US as int, bpm_milli)
}

/// What miss detection does to one note once the playhead is a full miss
/// window past its target: a rest passes cleanly (Great); a hold never
/// pressed misses head and tail; a hold being held is left to the hold state
/// machine; anything else misses. `(kept, judgments)`.
pub open spec fn spec_step_missed(n: LiveNote, current_beat: int, bpm_milli: int) -> (
    bool,
    Seq<Judgment>,
) {
    if current_beat >= n.target_beat + spec_miss_window_beats(bpm_milli) {
        match n.kind {
            NoteKind::Rest => (false, seq![Judgment::Great]),
            NoteKind::Hold { .. } => {
                if n.hold_state == HoldState::Held {
                    (true, Seq::<Judgment>::empty())
                } else {
                    (false, seq![Judgment::Miss, Judgment::Miss])
                }
            },
            _ => (false, seq![Judgment::Miss]),
        }
    } else {
        (true, Seq::<Judgment>::empty())
    }
}

/// The live set and judgments after one frame of miss detection, notes
/// visited in order.
pub open spec fn spec_despawn_missed(
    notes: Seq<LiveNote>,
    current_beat: int,
    bpm_milli: int,
) -> (Seq<LiveNote>, Seq<Judgment>)
    decreases notes.len(),
{
    if notes.len() == 0 {
        (Seq::<LiveNote>::empty(), Seq::<Judgment>::empty())
    } else {
        let prev = spec_despawn_missed(notes.drop_last(), current_beat, bpm_milli);
        let st = spec_step_missed(notes.last(), current_beat, bpm_milli);
        (
            if st.0 {
                prev.0.push(notes.last())
            } else {
                prev.0
            },
            prev.1 + st.1,
        )
    }
}

/// One frame of miss detection: despawn every note the playhead has passed
/// by more than the miss window, emitting its judgments.
pub fn despawn_missed(
    notes: &mut Vec<LiveNote>,
    current_beat: i64,
    bpm_milli: u32,
    position: (i64, i64),
) -> (results: Vec<JudgmentResult>)
    requires
        spec_live_notes_wf(old(notes)@),
        1 <= bpm_milli <= 1_000_000,
        -2_000_000_000_000 <= current_beat <= 2_000_000_000_000,
    ensures
        final(notes)@ == spec_despawn_missed(
            old(notes)@,
            current_beat as int,
            bpm_milli as int,
        ).0,
        spec_judgments_of(results@) == spec_despawn_missed(
            old(notes)@,
            current_beat as int,
            bpm_milli as int,
        ).1,
        spec_live_notes_wf(final(notes)@),
        forall|i: int|
            0 <= i < results@.len() ==> (#[trigger] results@[i]).position_x == position.0
                && results@[i].position_y == position.1,
{
    let window = micros_to_beats(GOOD_WINDOW_US, bpm_milli);
    let mut kept: Vec<LiveNote> = Vec::new();
    let mut results: Vec<JudgmentResult> = Vec::new();
    let n = notes.len();
    let mut i: usize = 0;
    while i < n
        invariant
            n == notes@.len(),
            0 <= i <= n,
            notes@ == old(notes)@,
            spec_live_notes_wf(notes@),
            1 <= bpm_milli <= 1_000_000,
            -2_000_000_000_000 <= current_beat <= 2_000_000_000_000,
            window == spec_miss_window_beats(bpm_milli as int),
            0 <= window <= 100_000_000_000,
            kept@ == spec_despawn_missed(
                notes@.take(i as int),
                current_beat as int,
                bpm_milli as int,
            ).0,
            spec_judgments_of(results@) == spec_despawn_missed(
                notes@.take(i as int),
                current_beat as int,
                bpm_milli as int,
            ).1,
            spec_live_notes_wf(kept@),
            forall|k: int|
                0 <= k < results@.len() ==> (#[trigger] results@[k]).position_x == position.0
                    && results@[k].position_y == position.1,
        decreases n - i,
    {
        proof {
            assert(notes@.take(i + 1).drop_last() =~= notes@.take(i as int));
            assert(notes@.take(i + 1).last() == notes@[i as int]);
            assert(spec_live_note_wf(notes@[i as int]));
        }
        let note = notes[i];
        if current_beat >= note.target_beat + window {
            let is_rest = match note.kind {
                NoteKind::Rest => true,
                _ => false,
            };
            let is_hold = match note.kind {
                NoteKind::Hold { .. } => true,
                _ => false,
            };
            if is_rest {
                results.push(
                    JudgmentResult {
                        judgment: Judgment::Great,
                        position_x: position.0,
                        position_y: position.1,
                    },
                );
                proof {
                    assert(spec_judgments_of(results@) =~= spec_judgments_of(
                        results@.drop_last(),
                    ).push(Judgment::Great));
                }
            } else if is_hold {
                if note.hold_state == HoldState::Held {
                    kept.push(note);
                } else {
                    results.push(
                        JudgmentResult {
                            judgment: Judgment::Miss,
                            position_x: position.0,
                            position_y: position.1,
                        },
                    );
                    results.push(
                        JudgmentResult {
                            judgment: Judgment::Miss,
                            position_x: position.0,
                            position_y: position.1,
                        },
                    );
                    proof {
                        assert(spec_judgments_of(results@) =~= spec_judgments_of(
                            results@.drop_last().drop_last(),
                        ) + seq![Judgment::Miss, Judgment::Miss]);
                    }
                }
            } else {
                results.push(
                    JudgmentResult {
                        judgment: Judgment::Miss,
                        position_x: position.0,
                        position_y: position.1,
                    },
                );
                proof {
                    assert(spec_judgments_of(results@) =~= spec_judgments_of(
                        results@.drop_last(),
                    ).push(Judgment::Miss));
                }
            }
        } else {
            kept.push(note);
        }
        i = i + 1;
    }
    proof {
        assert(notes@.take(n as int) =~= notes@);
    }
    *notes = kept;
    results
}

} // verus!
