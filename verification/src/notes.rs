//! Note lifecycle: converting declared chart notes into runtime notes,
//! scheduling them into the live set as the playhead advances, and tracking
//! their travel progress.
//!
//! The runtime understands Tap, Slide, Hold, Rest and Critical notes; the
//! declarative chart may carry reserved kinds, which the conversion skips.

use vstd::prelude::*;

verus! {

use crate::chart::{ChartNoteEntry, ChartNoteType, SlideDirection};
use crate::fixed::round_div_spec;

/// Largest beat magnitude a chart note may sit at, micro-beats.
pub const CHART_BEAT_ABS: i64 = 1_000_000_000_000;

/// Largest hold duration, micro-beats.
pub const MAX_HOLD_DURATION: i64 = 100_000_000_000;

/// Largest travel / look-ahead value, micro-beats.
pub const MAX_TRAVEL_BEATS: i64 = 1_000_000_000;

/// Runtime note kind.
#[derive(Debug, Clone, Copy, PartialEq, Eq, Structural)]
pub enum NoteKind {
    Tap,
    Slide(SlideDirection),
    Hold { end_beat: i64 },
    Rest,
    Critical,
}

/// State of a hold note's sustained phase.
#[derive(Debug, Clone, Copy, PartialEq, Eq, Structural)]
pub enum HoldState {
    Pending,
    Held,
    Completed,
    Dropped,
}

/// A scheduled (not yet spawned) runtime note.
#[derive(Debug, Clone, Copy, PartialEq, Eq, Structural)]
pub struct ChartNote {
    /// Beat the note must be hit at, micro-beats.
    pub target_beat: i64,
    pub kind: NoteKind,
}

/// A live note in the active set.
#[derive(Debug, Clone, Copy, PartialEq, Eq, Structural)]
pub struct LiveNote {
    /// Beat the note must be hit at, micro-beats.
    pub target_beat: i64,
    /// Beat the note appeared at, micro-beats.
    pub spawn_beat: i64,
    pub kind: NoteKind,
    /// Sustain state; meaningful for holds, `Pending` otherwise.
    pub hold_state: HoldState,
}

/// Range and well-formedness of one runtime note.
pub open spec fn spec_note_wf(target_beat: int, kind: NoteKind) -> bool {
    &&& -CHART_BEAT_ABS <= target_beat <= CHART_BEAT_ABS
    &&& match kind {
        NoteKind::Hold { end_beat } => target_beat <= end_beat <= target_beat + MAX_HOLD_DURATION,
        _ => true,
    }
}

/// Range and well-formedness of a live note.
pub open spec fn spec_live_note_wf(n: LiveNote) -> bool {
    &&& spec_note_wf(n.target_beat as int, n.kind)
    &&& -2 * CHART_BEAT_ABS <= n.spawn_beat <= 2 * CHART_BEAT_ABS
}

/// Every live note in the set is well formed.
pub open spec fn spec_live_notes_wf(s: Seq<LiveNote>) -> bool {
    forall|i: int| 0 <= i < s.len() ==> spec_live_note_wf(#[trigger] s[i])
}

/// Notes ordered by target beat.
pub open spec fn spec_notes_sorted(s: Seq<ChartNote>) -> bool {
    forall|i: int, j: int|
        0 <= i <= j < s.len() ==> (#[trigger] s[i]).target_beat <= (#[trigger] s[j]).target_beat
}

/// The runtime kind a declared note maps to; `None` for reserved kinds the
/// runtime skips.
pub open spec fn spec_runtime_kind(e: ChartNoteEntry) -> Option<NoteKind> {
    match e.note_type {
        ChartNoteType::Tap => Some(NoteKind::Tap),
        ChartNoteType::Slide { direction } => Some(NoteKind::Slide(direction)),
        ChartNoteType::Hold { duration_beats } => Some(
            NoteKind::Hold { end_beat: (e.beat + duration_beats) as i64 },
        ),
        ChartNoteType::Rest => Some(NoteKind::Rest),
        ChartNoteType::Critical => Some(NoteKind::Critical),
        _ => None,
    }
}

/// The runtime notes a declared note list maps to, in order, reserved kinds
/// skipped.
pub open spec fn spec_runtime_notes(s: Seq<ChartNoteEntry>) -> Seq<ChartNote>
    decreases s.len(),
{
    if s.len() == 0 {
        Seq::empty()
    } else {
        let prefix = spec_runtime_notes(s.drop_last());
        match spec_runtime_kind(s.last()) {
            Some(kind) => prefix.push(ChartNote { target_beat: s.last().beat, kind }),
            None => prefix,
        }
    }
}

/// Whether a declared note is within the ranges the runtime arithmetic
/// supports.
pub open spec fn spec_entry_ok(e: ChartNoteEntry) -> bool {
    &&& -CHART_BEAT_ABS <= e.beat <= CHART_BEAT_ABS
    &&& match e.note_type {
        ChartNoteType::Hold { duration_beats } => 0 <= duration_beats <= MAX_HOLD_DURATION,
        ChartNoteType::SlideHold { duration_beats, .. } => 0 <= duration_beats
            <= MAX_HOLD_DURATION,
        ChartNoteType::CriticalHold { duration_beats } => 0 <= duration_beats
            <= MAX_HOLD_DURATION,
        _ => true,
    }
}

/// Declared notes ordered by beat.
pub open spec fn spec_entries_sorted(s: Seq<ChartNoteEntry>) -> bool {
    forall|i: int, j: int|
        0 <= i <= j < s.len() ==> (#[trigger] s[i]).beat <= (#[trigger] s[j]).beat
}

/// The unspawned suffix of a chart's notes, with its scheduling parameters.
#[derive(Debug)]
pub struct NoteQueue {
    /// All runtime notes, ordered by target beat.
    pub notes: Vec<ChartNote>,
    /// Index of the first note not yet spawned.
    pub next_index: usize,
    /// How far ahead of the playhead notes spawn, micro-beats.
    pub look_ahead_beats: i64,
    /// Beats a note travels from spawn to judgment, micro-beats.
    pub travel_beats: i64,
}

impl NoteQueue {
    /// Queue invariant: notes sorted and in range, cursor within bounds,
    /// positive travel.
    pub open spec fn wf(self) -> bool {
        &&& spec_notes_sorted(self.notes@)
        &&& forall|i: int|
            0 <= i < self.notes@.len() ==> spec_note_wf(
                (#[trigger] self.notes@[i]).target_beat as int,
                self.notes@[i].kind,
            )
        &&& self.next_index <= self.notes@.len()
        &&& 0 < self.travel_beats <= MAX_TRAVEL_BEATS
        &&& 0 <= self.look_ahead_beats <= MAX_TRAVEL_BEATS
    }

    /// Spawn every note whose spawn beat (target minus travel) has come
    /// within the look-ahead horizon, advancing the cursor past them.
    /// Returned notes are in target-beat order; holds start `Pending`.
    pub fn spawn_due(&mut self, current_beat: i64) -> (spawned: Vec<LiveNote>)
        requires
            old(self).wf(),
            -2_000_000_000_000_000 <= current_beat <= 2_000_000_000_000_000,
        ensures
            final(self).wf(),
            final(self).notes@ == old(self).notes@,
            final(self).look_ahead_beats == old(self).look_ahead_beats,
            final(self).travel_beats == old(self).travel_beats,
            old(self).next_index <= final(self).next_index <= old(self).notes@.len(),
            spawned@.len() == final(self).next_index - old(self).next_index,
            forall|k: int|
                0 <= k < spawned@.len() ==> {
                    let src = old(self).notes@[old(self).next_index + k];
                    #[trigger] spawned@[k] == LiveNote {
                        target_beat: src.target_beat,
                        spawn_beat: (src.target_beat - old(self).travel_beats) as i64,
                        kind: src.kind,
                        hold_state: HoldState::Pending,
                    }
                },
            // Everything spawned was due.
            forall|k: int|
                old(self).next_index <= k < final(self).next_index
                    ==> (#[trigger] old(self).notes@[k]).target_beat - old(self).travel_beats
                        <= current_beat + old(self).look_ahead_beats,
            // The cursor stopped at the first note not yet due, if any.
            final(self).next_index < old(self).notes@.len()
                ==> old(self).notes@[final(self).next_index as int].target_beat
                    - old(self).travel_beats > current_beat + old(self).look_ahead_beats,
    {
        let mut spawned: Vec<LiveNote> = Vec::new();
        let horizon: i64 = current_beat + self.look_ahead_beats;
        loop
            invariant
                self.wf(),
                self.notes@ == old(self).notes@,
                self.look_ahead_beats == old(self).look_ahead_beats,
                self.travel_beats == old(self).travel_beats,
                horizon == current_beat + self.look_ahead_beats,
                old(self).next_index <= self.next_index <= self.notes@.len(),
                spawned@.len() == self.next_index - old(self).next_index,
                forall|k: int|
                    0 <= k < spawned@.len() ==> {
                        let src = old(self).notes@[old(self).next_index + k];
                        #[trigger] spawned@[k] == LiveNote {
                            target_beat: src.target_beat,
                            spawn_beat: (src.target_beat - old(self).travel_beats) as i64,
                            kind: src.kind,
                            hold_state: HoldState::Pending,
                        }
                    },
                forall|k: int|
                    old(self).next_index <= k < self.next_index
                        ==> (#[trigger] old(self).notes@[k]).target_beat - old(self).travel_beats
                            <= current_beat + old(self).look_ahead_beats,
            ensures
                self.next_index < self.notes@.len() ==> self.notes@[self.next_index as int].target_beat
                    - self.travel_beats > current_beat + self.look_ahead_beats,
            decreases self.notes@.len() - self.next_index,
        {
            if self.next_index >= self.notes.len() {
                break ;
            }
            let note = self.notes[self.next_index];
            let spawn_beat = note.target_beat - self.travel_beats;
            if spawn_beat > horizon {
                break ;
            }
            spawned.push(
                LiveNote {
                    target_beat: note.target_beat,
                    spawn_beat,
                    kind: note.kind,
                    hold_state: HoldState::Pending,
                },
            );
            self.next_index = self.next_index + 1;
        }
        spawned
    }
}

/// Travel progress of a note in micro-units: how far along its spawn-to-
/// judgment run the playhead is. Zero before the spawn beat, one whole unit
/// exactly at the target beat, and past one afterwards.
pub open spec fn spec_note_progress(current_beat: int, spawn_beat: int, travel_beats: int) -> int {
    let p = round_div_spec((current_beat - spawn_beat) * 1_000_000, travel_beats);
    if p < 0 {
        0
    } else {
        p
    }
}

/// Travel progress of a live note, micro-units.
pub fn note_progress(current_beat: i64, spawn_beat: i64, travel_beats: i64) -> (r: i64)
    requires
        0 < travel_beats <= MAX_TRAVEL_BEATS,
        -4_000_000_000_000 <= current_beat <= 4_000_000_000_000,
        -2 * CHART_BEAT_ABS <= spawn_beat <= 2 * CHART_BEAT_ABS,
    ensures
        r == spec_note_progress(current_beat as int, spawn_beat as int, travel_beats as int),
        r >= 0,
{
    let delta: i128 = current_beat as i128 - spawn_beat as i128;
    proof {
        crate::fixed::lemma_mul_abs_bound(
            delta as int,
            1_000_000,
            6_000_000_000_000,
            1_000_000,
        );
    }
    let p: i128 = crate::fixed::round_div_i128(delta * 1_000_000, travel_beats as i128);
    if p < 0 {
        0
    } else {
        p as i64
    }
}

/// Pure projection from beat position to spline progress over the span of a
/// song.
#[derive(Debug, Clone, Copy, PartialEq, Eq, Structural)]
pub struct Playhead {
    /// Beat the path starts at, micro-beats.
    pub song_start_beat: i64,
    /// Beat the path ends at, micro-beats.
    pub song_end_beat: i64,
}

impl Playhead {
    /// A playhead spans a nonempty beat range.
    pub open spec fn wf(self) -> bool {
        &&& -CHART_BEAT_ABS <= self.song_start_beat < self.song_end_beat <= CHART_BEAT_ABS
    }

    /// Spline progress at `beat`, clamped to `[0, 1]` in micro-units.
    pub open spec fn spec_progress(self, beat: int) -> int {
        let raw = round_div_spec(
            (beat - self.song_start_beat) * 1_000_000,
            self.song_end_beat - self.song_start_beat,
        );
        if raw < 0 {
            0
        } else if raw > 1_000_000 {
            1_000_000
        } else {
            raw
        }
    }

    /// Spline progress at `beat`, clamped to `[0, 1]` in micro-units.
    pub fn progress(&self, beat: i64) -> (r: i64)
        requires
            self.wf(),
            -2_000_000_000_000_000 <= beat <= 2_000_000_000_000_000,
        ensures
            r == self.spec_progress(beat as int),
            0 <= r <= 1_000_000,
    {
        let delta: i128 = beat as i128 - self.song_start_beat as i128;
        let span: i128 = self.song_end_beat as i128 - self.song_start_beat as i128;
        proof {
            crate::fixed::lemma_mul_abs_bound(
                delta as int,
                1_000_000,
                2_001_000_000_000_000,
                1_000_000,
            );
        }
        let raw: i128 = crate::fixed::round_div_i128(delta * 1_000_000, span);
        if raw < 0 {
            0
        } else if raw > 1_000_000 {
            1_000_000
        } else {
            raw as i64
        }
    }
}

/// Convert a chart's declared notes into the runtime queue. Returns `None`
/// when the declared notes are unsorted or out of range, or the scheduling
/// parameters are: a structurally bad chart never enters the Playing state.
pub fn build_note_queue(
    entries: &Vec<ChartNoteEntry>,
    travel_beats: i64,
    look_ahead_beats: i64,
) -> (r: Option<NoteQueue>)
    ensures
        r is Some <==> {
            &&& spec_entries_sorted(entries@)
            &&& forall|i: int| 0 <= i < entries@.len() ==> spec_entry_ok(#[trigger] entries@[i])
            &&& 0 < travel_beats <= MAX_TRAVEL_BEATS
            &&& 0 <= look_ahead_beats <= MAX_TRAVEL_BEATS
        },
        r is Some ==> {
            let q = r->Some_0;
            &&& q.wf()
            &&& q.notes@ == spec_runtime_notes(entries@)
            &&& q.next_index == 0
            &&& q.travel_beats == travel_beats
            &&& q.look_ahead_beats == look_ahead_beats
        },
{
    if !(0 < travel_beats && travel_beats <= MAX_TRAVEL_BEATS) {
        return None;
    }
    if !(0 <= look_ahead_beats && look_ahead_beats <= MAX_TRAVEL_BEATS) {
        return None;
    }
    let n = entries.len();
    let mut notes: Vec<ChartNote> = Vec::new();
    let mut i: usize = 0;
    while i < n
        invariant
            n == entries@.len(),
            0 <= i <= n,
            spec_entries_sorted(entries@.take(i as int)),
            forall|k: int| 0 <= k < i ==> spec_entry_ok(#[trigger] entries@[k]),
            notes@ == spec_runtime_notes(entries@.take(i as int)),
            spec_notes_sorted(notes@),
            forall|k: int|
                0 <= k < notes@.len() ==> spec_note_wf(
                    (#[trigger] notes@[k]).target_beat as int,
                    notes@[k].kind,
                ),
            forall|k: int|
                0 <= k < notes@.len() && i > 0 ==> (#[trigger] notes@[k]).target_beat
                    <= entries@[i - 1].beat,
        decreases n - i,
    {
        let e = entries[i];
        if !(-CHART_BEAT_ABS <= e.beat && e.beat <= CHART_BEAT_ABS) {
            return None;
        }
        if i > 0 && entries[i - 1].beat > e.beat {
            return None;
        }
        proof {
            assert(entries@.take(i + 1).drop_last() =~= entries@.take(i as int));
            assert(entries@.take(i + 1).last() == entries@[i as int]);
        }
        let kind: Option<NoteKind> = match e.note_type {
            ChartNoteType::Tap => Some(NoteKind::Tap),
            ChartNoteType::Slide { direction } => Some(NoteKind::Slide(direction)),
            ChartNoteType::Hold { duration_beats } => {
                if !(0 <= duration_beats && duration_beats <= MAX_HOLD_DURATION) {
                    return None;
                }
                Some(NoteKind::Hold { end_beat: e.beat + duration_beats })
            },
            ChartNoteType::SlideHold { duration_beats, .. } => {
                if !(0 <= duration_beats && duration_beats <= MAX_HOLD_DURATION) {
                    return None;
                }
                None
            },
            ChartNoteType::CriticalHold { duration_beats } => {
                if !(0 <= duration_beats && duration_beats <= MAX_HOLD_DURATION) {
                    return None;
                }
                None
            },
            ChartNoteType::Rest => Some(NoteKind::Rest),
            ChartNoteType::Critical => Some(NoteKind::Critical),
            _ => None,
        };
        if let Some(k) = kind {
            notes.push(ChartNote { target_beat: e.beat, kind: k });
        }
        i = i + 1;
    }
    proof {
        assert(entries@.take(n as int) =~= entries@);
    }
    Some(
        NoteQueue {
            notes,
            next_index: 0,
            look_ahead_beats,
            travel_beats,
        },
    )
}

} // verus!
