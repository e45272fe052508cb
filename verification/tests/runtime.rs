// Runtime-side behavior: conductor regression and drift handling, scoring,
// judgment windows, hold and rest lifecycles, and note scheduling.
// Beats and seconds are micro-units, BPM milli-units.

use funktrack::conductor::{linear_regression, SongConductor};
use funktrack::input::{CriticalInput, SlideInput, TapInput};
use funktrack::judgment::{
    check_hits, check_holds, despawn_missed, grade_timing, judge_input, InputClass, Judgment,
};
use funktrack::notes::{
    build_note_queue, note_progress, HoldState, LiveNote, NoteKind, Playhead,
};
use funktrack::chart::{ChartNoteEntry, ChartNoteType, SlideDirection};
use funktrack::scoring::{
    chain_increment, grade_multiplier, grade_rank_from_score, ChainTier, GradeRank, ScoreState,
};

#[test]
fn regression_two_points() {
    let samples: Vec<(i64, i64)> = vec![(0, 0), (1_000_000, 2_000_000)];
    let (slope, intercept) = linear_regression(&samples);
    assert_eq!(slope, 2_000_000);
    assert_eq!(intercept, 0);
}

#[test]
fn regression_perfect_line() {
    // beat = 2 * time + 1
    let mut samples: Vec<(i64, i64)> = Vec::new();
    for i in 0..10i64 {
        let x = i * 500_000;
        samples.push((x, 2 * x + 1_000_000));
    }
    let (slope, intercept) = linear_regression(&samples);
    assert_eq!(slope, 2_000_000);
    assert_eq!(intercept, 1_000_000);
}

#[test]
fn regression_single_sample() {
    let samples: Vec<(i64, i64)> = vec![(1_000_000, 2_000_000)];
    let (slope, intercept) = linear_regression(&samples);
    assert_eq!(slope, 2_000_000);
    assert_eq!(intercept, 0);
}

#[test]
fn regression_large_offset() {
    // Wall clock starting at 100 s (menus were open), beats starting at zero
    // with slope 2 (120 BPM): the centered regression must not cancel.
    let mut samples: Vec<(i64, i64)> = Vec::new();
    for i in 0..15i64 {
        let x = 100_000_000 + i * 16_000;
        let y = 2 * (x - 100_000_000);
        samples.push((x, y));
    }
    let (slope, intercept) = linear_regression(&samples);
    assert_eq!(slope, 2_000_000, "slope should be exactly 2 beats per second");
    let predicted = slope * 100_000_000 / 1_000_000 + intercept;
    assert_eq!(predicted, 0, "predicted beat at the 100 s origin should be zero");
}

#[test]
fn conductor_warm_up_tracks_audio() {
    // Five samples spanning 0.04 s: below the regression span, the conductor
    // tracks the raw audio beat directly.
    let mut c = SongConductor::new(120_000);
    let mut last_beats = 0;
    for i in 0..5i64 {
        let t = i * 10_000; // 0.04 s total span
        let beats = 2 * t;
        c.advance(t, beats, 0);
        last_beats = beats;
    }
    assert_eq!(c.current_beat, last_beats);
    assert_eq!(c.drift_frames, 0);
    assert!(c.playing);
}

#[test]
fn conductor_drift_recovery() {
    // Audio jumps half a second ahead: the drift counter rides up for three
    // steps, and the fourth excessive step hard-resyncs onto the audio clock.
    let mut c = SongConductor::new(120_000);
    let frame = 16_000i64;
    for i in 0..20i64 {
        let t = i * frame;
        c.advance(t, 2 * t, 0);
    }
    assert_eq!(c.drift_frames, 0);
    let jump = 1_000_000; // +0.5 s of audio at 120 BPM
    let mut resynced_at = None;
    for k in 0..6i64 {
        let t = (20 + k) * frame;
        let beats = 2 * t + jump;
        c.advance(t, beats, 0);
        if k < 3 {
            assert_eq!(c.drift_frames, (k + 1) as u32);
        }
        if c.drift_frames == 0 && resynced_at.is_none() {
            resynced_at = Some(k);
            assert_eq!(c.current_beat, beats);
            break;
        }
    }
    assert_eq!(resynced_at, Some(3));
}

#[test]
fn conductor_applies_user_offset() {
    let mut c = SongConductor::new(120_000);
    // +50 ms at 120 BPM is +0.1 beats.
    c.advance(0, 0, 50);
    assert_eq!(c.current_beat, 100_000);
}

#[test]
fn grade_multipliers() {
    assert_eq!(grade_multiplier(Judgment::Great), 1000);
    assert_eq!(grade_multiplier(Judgment::Cool), 800);
    assert_eq!(grade_multiplier(Judgment::Good), 500);
    assert_eq!(grade_multiplier(Judgment::Miss), 0);
}

#[test]
fn chain_increments() {
    assert_eq!(chain_increment(ChainTier::Normal), 1);
    assert_eq!(chain_increment(ChainTier::Fever), 2);
    assert_eq!(chain_increment(ChainTier::Trance), 4);
}

#[test]
fn chain_tier_thresholds() {
    let mut state = ScoreState::new(100);
    assert_eq!(state.chain_tier(), ChainTier::Normal);
    state.chain = 9;
    assert_eq!(state.chain_tier(), ChainTier::Normal);
    state.chain = 10;
    assert_eq!(state.chain_tier(), ChainTier::Fever);
    state.chain = 99;
    assert_eq!(state.chain_tier(), ChainTier::Fever);
    state.chain = 100;
    assert_eq!(state.chain_tier(), ChainTier::Trance);
}

#[test]
fn chain_bonus_capped() {
    // max_chain/total_notes = 200/40 = 5, raw bonus 500_000, capped.
    let mut state = ScoreState::new(40);
    state.max_chain = 200;
    assert_eq!(state.chain_bonus(), 100_000);
}

#[test]
fn chain_bonus_partial() {
    // 100_000 * 20/40 = 50_000.
    let mut state = ScoreState::new(40);
    state.max_chain = 20;
    assert_eq!(state.chain_bonus(), 50_000);
}

#[test]
fn grade_rank_boundaries() {
    assert_eq!(grade_rank_from_score(1_000_000), GradeRank::SPlusPlus);
    assert_eq!(grade_rank_from_score(1_500_000), GradeRank::SPlusPlus);
    assert_eq!(grade_rank_from_score(999_999), GradeRank::SPlus);
    assert_eq!(grade_rank_from_score(980_000), GradeRank::SPlus);
    assert_eq!(grade_rank_from_score(979_999), GradeRank::S);
    assert_eq!(grade_rank_from_score(950_000), GradeRank::S);
    assert_eq!(grade_rank_from_score(949_999), GradeRank::A);
    assert_eq!(grade_rank_from_score(900_000), GradeRank::A);
    assert_eq!(grade_rank_from_score(899_999), GradeRank::B);
    assert_eq!(grade_rank_from_score(800_000), GradeRank::B);
    assert_eq!(grade_rank_from_score(799_999), GradeRank::C);
    assert_eq!(grade_rank_from_score(700_000), GradeRank::C);
    assert_eq!(grade_rank_from_score(699_999), GradeRank::D);
    assert_eq!(grade_rank_from_score(0), GradeRank::D);
}

#[test]
fn perfect_play_reaches_max() {
    let total = 40u32;
    let mut state = ScoreState::new(total);
    state.great_count = total;
    state.max_chain = total;
    // play 850_000 + chain 100_000 + clear 50_000
    assert_eq!(state.total_score(), 1_000_000);
}

#[test]
fn all_misses_only_clear_bonus() {
    let total = 40u32;
    let mut state = ScoreState::new(total);
    state.miss_count = total;
    assert_eq!(state.play_score(), 0);
    assert_eq!(state.chain_bonus(), 0);
    assert_eq!(state.total_score(), 50_000);
}

#[test]
fn score_stays_bounded_on_mixed_play() {
    // Mixed grades never push the total past the million.
    let mut state = ScoreState::new(7);
    for j in [
        Judgment::Great,
        Judgment::Cool,
        Judgment::Good,
        Judgment::Great,
        Judgment::Miss,
        Judgment::Cool,
        Judgment::Great,
    ] {
        state.apply_judgment(j);
    }
    assert!(state.total_score() <= 1_000_000);
    assert_eq!(state.notes_judged(), 7);
}

#[test]
fn chain_tier_transition_sequence() {
    // Ten consecutive Greats walk the chain 1..=10; in Fever the next
    // non-miss advances by two.
    let mut state = ScoreState::new(100);
    let mut chains = Vec::new();
    for _ in 0..11 {
        state.apply_judgment(Judgment::Great);
        chains.push(state.chain);
    }
    assert_eq!(chains, vec![1, 2, 3, 4, 5, 6, 7, 8, 9, 10, 12]);
    state.apply_judgment(Judgment::Miss);
    assert_eq!(state.chain, 0);
    assert_eq!(state.max_chain, 12);
}

#[test]
fn grade_timing_windows() {
    assert_eq!(grade_timing(0), Some(Judgment::Great));
    assert_eq!(grade_timing(20_000), Some(Judgment::Great));
    assert_eq!(grade_timing(20_001), Some(Judgment::Cool));
    assert_eq!(grade_timing(50_000), Some(Judgment::Cool));
    assert_eq!(grade_timing(50_001), Some(Judgment::Good));
    assert_eq!(grade_timing(100_000), Some(Judgment::Good));
    assert_eq!(grade_timing(100_001), None);
}

fn live(target_beat: i64, kind: NoteKind) -> LiveNote {
    LiveNote { target_beat, spawn_beat: target_beat - 3_000_000, kind, hold_state: HoldState::Pending }
}

#[test]
fn hold_held_through_completes_great() {
    // Hold at beat 4, tail at 8, at 60 BPM. A tap on the head turns it Held;
    // holding past the tail window completes the tail as Great.
    let bpm = 60_000u32;
    let mut notes = vec![live(4_000_000, NoteKind::Hold { end_beat: 8_000_000 })];
    let head = judge_input(&mut notes, InputClass::Tap, 4_000_000, bpm);
    assert_eq!(head, Some(Judgment::Great));
    assert_eq!(notes.len(), 1);
    assert_eq!(notes[0].hold_state, HoldState::Held);

    // Tap still pressed before the tail window closes: nothing happens.
    let mid = check_holds(&mut notes, true, 8_050_000, bpm, (0, 0));
    assert!(mid.is_empty());
    assert_eq!(notes.len(), 1);

    // At beat 8.105 (105 ms past the tail at 60 BPM) the tail auto-completes.
    let tail = check_holds(&mut notes, true, 8_105_000, bpm, (0, 0));
    assert_eq!(tail.len(), 1);
    assert_eq!(tail[0].judgment, Judgment::Great);
    assert!(notes.is_empty());
}

#[test]
fn hold_released_early_drops_with_miss() {
    let bpm = 60_000u32;
    let mut notes = vec![live(4_000_000, NoteKind::Hold { end_beat: 8_000_000 })];
    judge_input(&mut notes, InputClass::Tap, 4_000_000, bpm);
    let out = check_holds(&mut notes, false, 6_000_000, bpm, (0, 0));
    assert_eq!(out.len(), 1);
    assert_eq!(out[0].judgment, Judgment::Miss);
    assert!(notes.is_empty());
}

#[test]
fn rest_passes_cleanly_as_great() {
    // Rest at beat 10, no tap: a full miss window later it emits Great.
    let bpm = 120_000u32;
    let mut notes = vec![live(10_000_000, NoteKind::Rest)];
    let out = despawn_missed(&mut notes, 10_200_000, bpm, (0, 0));
    assert_eq!(out.len(), 1);
    assert_eq!(out[0].judgment, Judgment::Great);
    assert!(notes.is_empty());
}

#[test]
fn tapping_a_rest_is_a_miss() {
    let bpm = 120_000u32;
    let mut notes = vec![live(10_000_000, NoteKind::Rest)];
    let out = judge_input(&mut notes, InputClass::Tap, 10_000_000, bpm);
    assert_eq!(out, Some(Judgment::Miss));
    assert!(notes.is_empty());
}

#[test]
fn missed_hold_counts_head_and_tail() {
    let bpm = 120_000u32;
    let mut notes = vec![live(4_000_000, NoteKind::Hold { end_beat: 8_000_000 })];
    let out = despawn_missed(&mut notes, 4_300_000, bpm, (0, 0));
    assert_eq!(out.len(), 2);
    assert_eq!(out[0].judgment, Judgment::Miss);
    assert_eq!(out[1].judgment, Judgment::Miss);
    assert!(notes.is_empty());
}

#[test]
fn critical_input_takes_nearest_note() {
    let bpm = 120_000u32;
    let mut notes = vec![
        live(3_900_000, NoteKind::Critical),
        live(4_020_000, NoteKind::Critical),
        live(4_000_000, NoteKind::Tap),
    ];
    let criticals = vec![CriticalInput { beat: 4_000_000 }];
    let out = check_hits(&mut notes, &criticals, &Vec::new(), &Vec::new(), bpm, (0, 0));
    assert_eq!(out.len(), 1);
    // 0.02 beats at 120 BPM is 10 ms, inside the GREAT window; the nearer
    // critical (at 4.02) wins over the one at 3.9.
    assert_eq!(out[0].judgment, Judgment::Great);
    assert_eq!(notes.len(), 2);
    assert_eq!(notes[0].target_beat, 3_900_000);
    assert_eq!(notes[1].target_beat, 4_000_000);
}

#[test]
fn slide_requires_matching_direction() {
    let bpm = 120_000u32;
    let mut notes = vec![live(4_000_000, NoteKind::Slide(SlideDirection::N))];
    let wrong = vec![SlideInput { beat: 4_000_000, direction: SlideDirection::S }];
    let out = check_hits(&mut notes, &Vec::new(), &wrong, &Vec::new(), bpm, (0, 0));
    assert!(out.is_empty());
    assert_eq!(notes.len(), 1);
    let right = vec![SlideInput { beat: 4_000_000, direction: SlideDirection::N }];
    let out = check_hits(&mut notes, &Vec::new(), &right, &Vec::new(), bpm, (0, 0));
    assert_eq!(out.len(), 1);
    assert_eq!(out[0].judgment, Judgment::Great);
    assert!(notes.is_empty());
}

#[test]
fn tap_outside_window_misses_nothing() {
    let bpm = 120_000u32;
    let mut notes = vec![live(4_000_000, NoteKind::Tap)];
    let taps = vec![TapInput { beat: 4_500_000 }];
    let out = check_hits(&mut notes, &Vec::new(), &Vec::new(), &taps, bpm, (0, 0));
    assert!(out.is_empty());
    assert_eq!(notes.len(), 1);
}

#[test]
fn note_queue_spawns_by_look_ahead() {
    let entries = vec![
        ChartNoteEntry { beat: 1_000_000, note_type: ChartNoteType::Tap },
        ChartNoteEntry { beat: 5_000_000, note_type: ChartNoteType::Tap },
        ChartNoteEntry { beat: 9_000_000, note_type: ChartNoteType::Tap },
    ];
    let mut queue = build_note_queue(&entries, 3_000_000, 3_000_000).expect("well-formed chart");
    // At beat 0, notes with spawn beat (target - 3) within +3 appear:
    // targets 1 and 5, but not 9.
    let spawned = queue.spawn_due(0);
    assert_eq!(spawned.len(), 2);
    assert_eq!(spawned[0].target_beat, 1_000_000);
    assert_eq!(spawned[1].target_beat, 5_000_000);
    let spawned = queue.spawn_due(4_000_000);
    assert_eq!(spawned.len(), 1);
    assert_eq!(spawned[0].target_beat, 9_000_000);
    assert!(queue.spawn_due(20_000_000).is_empty());
}

#[test]
fn note_queue_rejects_unsorted_chart() {
    let entries = vec![
        ChartNoteEntry { beat: 5_000_000, note_type: ChartNoteType::Tap },
        ChartNoteEntry { beat: 1_000_000, note_type: ChartNoteType::Tap },
    ];
    assert!(build_note_queue(&entries, 3_000_000, 3_000_000).is_none());
    let entries = vec![ChartNoteEntry { beat: 1_000_000, note_type: ChartNoteType::Tap }];
    assert!(build_note_queue(&entries, 0, 3_000_000).is_none());
}

#[test]
fn note_queue_skips_reserved_kinds() {
    let entries = vec![
        ChartNoteEntry { beat: 1_000_000, note_type: ChartNoteType::Scratch },
        ChartNoteEntry { beat: 2_000_000, note_type: ChartNoteType::Rest },
        ChartNoteEntry { beat: 3_000_000, note_type: ChartNoteType::AdLib },
        ChartNoteEntry {
            beat: 4_000_000,
            note_type: ChartNoteType::Hold { duration_beats: 2_000_000 },
        },
    ];
    let queue = build_note_queue(&entries, 3_000_000, 3_000_000).expect("well-formed chart");
    assert_eq!(queue.notes.len(), 2);
    assert_eq!(queue.notes[0].kind, NoteKind::Rest);
    assert_eq!(queue.notes[1].kind, NoteKind::Hold { end_beat: 6_000_000 });
}

#[test]
fn note_progress_runs_zero_to_one() {
    assert_eq!(note_progress(1_000_000, 1_000_000, 3_000_000), 0);
    assert_eq!(note_progress(2_500_000, 1_000_000, 3_000_000), 500_000);
    assert_eq!(note_progress(4_000_000, 1_000_000, 3_000_000), 1_000_000);
    assert_eq!(note_progress(0, 1_000_000, 3_000_000), 0);
}

#[test]
fn playhead_clamps_progress() {
    let p = Playhead { song_start_beat: 0, song_end_beat: 10_000_000 };
    assert_eq!(p.progress(-1_000_000), 0);
    assert_eq!(p.progress(5_000_000), 500_000);
    assert_eq!(p.progress(12_000_000), 1_000_000);
}
