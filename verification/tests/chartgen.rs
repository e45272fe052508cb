// Offline pipeline behavior: spectrogram energies, onset detection, beat
// tracking, quantization, difficulty filtering, typing, and determinism.

use funktrack::beat::{track_beats, BeatGrid};
use funktrack::chart::{ChartNoteType, Difficulty};
use funktrack::difficulty::{
    compute_beat_weight, compute_difficulty_rating, filter_by_difficulty, ScoredNote,
};
use funktrack::note_types::assign_note_types;
use funktrack::onset::{detect_onsets, OnsetEvent};
use funktrack::quantize::quantize_onsets;
use funktrack::stft::Spectrogram;

fn flat_spectrogram(frames: usize, magnitude: u32) -> Spectrogram {
    Spectrogram {
        frames: vec![vec![magnitude; 1025]; frames],
        hop_size: 512,
        sample_rate: 44_100,
    }
}

#[test]
fn frame_energy_of_flat_frame_is_its_magnitude() {
    let s = flat_spectrogram(2, 250_000);
    assert_eq!(s.frame_energy(0), 250_000);
    assert_eq!(s.frame_energy(1), 250_000);
}

#[test]
fn band_energy_covers_requested_bins() {
    let mut s = flat_spectrogram(1, 0);
    // Bin k covers k * 44100/2048 Hz; put energy into bins 1..=11
    // (roughly 20-250 Hz) only.
    for b in 1..=11usize {
        s.frames[0][b] = 400_000;
    }
    let low = s.band_energy(0, 20_000, 250_000);
    assert_eq!(low, 400_000);
    let high = s.band_energy(0, 4_000_000, 20_000_000);
    assert_eq!(high, 0);
}

#[test]
fn detect_onsets_finds_isolated_bursts() {
    // Quiet frames with two loud bursts: exactly the bursts come back, in
    // order, at their frames.
    let mut s = flat_spectrogram(200, 1_000);
    for b in 0..1025usize {
        s.frames[50][b] = 800_000;
        s.frames[120][b] = 700_000;
    }
    let onsets = detect_onsets(&s, 1_500, 50_000);
    assert_eq!(onsets.len(), 2);
    assert_eq!(onsets[0].frame, 50);
    assert_eq!(onsets[1].frame, 120);
    assert_eq!(onsets[0].strength, 1_000_000);
    assert!(onsets[0].time_us < onsets[1].time_us);
}

#[test]
fn detect_onsets_respects_silence_gate() {
    // A flux spike over near-silent frames stays below the energy gate.
    let mut s = flat_spectrogram(100, 0);
    for b in 0..1025usize {
        s.frames[50][b] = 150;
    }
    let onsets = detect_onsets(&s, 1_500, 50_000);
    assert!(onsets.is_empty());
}

#[test]
fn chart_generation_is_deterministic() {
    // The whole in-engine pipeline is a pure function of its inputs: two
    // runs on the same spectrogram agree note for note.
    let mut s = flat_spectrogram(400, 1_000);
    for (i, f) in [40usize, 120, 210, 300].iter().enumerate() {
        for b in 0..1025usize {
            s.frames[*f][b] = 500_000 + 100_000 * i as u32;
        }
    }
    let run = |s: &Spectrogram| {
        let onsets = detect_onsets(s, 1_500, 50_000);
        let grid = track_beats(s, &onsets, Some(120_000)).expect("grid in range");
        let quantized = quantize_onsets(&onsets, &grid, 2);
        let filtered = filter_by_difficulty(&quantized, Difficulty::Normal);
        assign_note_types(&filtered, Difficulty::Normal)
    };
    let a = run(&s);
    let b = run(&s);
    assert_eq!(a, b);
    assert!(!a.is_empty());
}

#[test]
fn time_to_beat_interpolates_between_grid_beats() {
    let grid = BeatGrid { beats: vec![0, 500_000, 1_000_000], bpm_milli: 120_000 };
    assert_eq!(grid.time_to_beat(0), 0);
    assert_eq!(grid.time_to_beat(250_000), 500_000);
    assert_eq!(grid.time_to_beat(500_000), 1_000_000);
    assert_eq!(grid.time_to_beat(750_000), 1_500_000);
    // Past the last beat: extrapolate at the grid tempo (120 BPM: 2 beats/s).
    assert_eq!(grid.time_to_beat(1_500_000), 3_000_000);
    // Before the first: extrapolate backwards.
    assert_eq!(grid.time_to_beat(-500_000), -1_000_000);
}

fn onset_at(time_us: i64, strength: u32) -> OnsetEvent {
    OnsetEvent { frame: 0, strength, time_us }
}

#[test]
fn quantization_snaps_to_grid_multiples() {
    // 120 BPM: one beat per half second. Grid resolution 4: all output
    // beats are multiples of a quarter beat.
    let grid = BeatGrid { beats: vec![0, 500_000, 1_000_000, 1_500_000], bpm_milli: 120_000 };
    let onsets = vec![
        onset_at(30_000, 900_000),
        onset_at(260_000, 800_000),
        onset_at(610_000, 700_000),
        onset_at(1_450_000, 600_000),
    ];
    let notes = quantize_onsets(&onsets, &grid, 4);
    assert_eq!(notes.len(), 4);
    for n in &notes {
        assert_eq!(n.beat % 250_000, 0, "beat {} is not on the quarter grid", n.beat);
    }
    assert_eq!(notes[0].beat, 0);
    assert_eq!(notes[1].beat, 500_000);
    assert_eq!(notes[2].beat, 1_250_000);
    assert_eq!(notes[3].beat, 3_000_000);
}

#[test]
fn quantization_merges_collisions_to_the_stronger() {
    let grid = BeatGrid { beats: vec![0, 500_000], bpm_milli: 120_000 };
    let onsets = vec![onset_at(10_000, 300_000), onset_at(40_000, 900_000)];
    let notes = quantize_onsets(&onsets, &grid, 1);
    assert_eq!(notes.len(), 1);
    assert_eq!(notes[0].beat, 0);
    assert_eq!(notes[0].strength, 900_000);
}

#[test]
fn beat_weight_prefers_downbeats() {
    assert_eq!(compute_beat_weight(0), 1000);
    assert_eq!(compute_beat_weight(4_000_000), 1000);
    assert_eq!(compute_beat_weight(1_000_000), 800);
    assert_eq!(compute_beat_weight(3_000_000), 800);
    assert_eq!(compute_beat_weight(2_500_000), 500);
    assert_eq!(compute_beat_weight(2_250_000), 300);
}

fn quantized(beat: i64, strength: u32) -> funktrack::quantize::QuantizedNote {
    funktrack::quantize::QuantizedNote { beat, strength, original_time_us: 0 }
}

#[test]
fn difficulty_filter_keeps_strongest_for_easy() {
    // Easy keeps only the top 20% of importances: with five notes, only the
    // strongest downbeat survives the 80th-percentile cut.
    let notes = vec![
        quantized(0, 1_000_000),
        quantized(1_000_000, 100_000),
        quantized(2_000_000, 150_000),
        quantized(3_000_000, 120_000),
        quantized(4_000_000, 900_000),
    ];
    let kept = filter_by_difficulty(&notes, Difficulty::Easy);
    assert_eq!(kept.len(), 1);
    assert_eq!(kept[0].beat, 0);
    // Hard's 20th percentile keeps all but the weakest.
    let kept = filter_by_difficulty(&notes, Difficulty::Hard);
    assert_eq!(kept.len(), 4);
}

#[test]
fn difficulty_filter_enforces_minimum_gap() {
    // Expert keeps everything by percentile, but two notes an eighth apart
    // lose the weaker at Normal's half-beat gap.
    let notes = vec![quantized(0, 900_000), quantized(125_000, 300_000)];
    let kept = filter_by_difficulty(&notes, Difficulty::Expert);
    assert_eq!(kept.len(), 2);
    let kept = filter_by_difficulty(&notes, Difficulty::Normal);
    assert_eq!(kept.len(), 1);
    assert_eq!(kept[0].beat, 0);
}

#[test]
fn empty_measures_get_synthetic_downbeats() {
    // Two notes sixteen beats apart at Expert (no percentile cut): the three
    // empty measures between them each gain a synthetic downbeat note.
    let notes = vec![quantized(0, 900_000), quantized(16_000_000, 800_000)];
    let kept = filter_by_difficulty(&notes, Difficulty::Expert);
    assert_eq!(kept.len(), 5);
    assert_eq!(kept[1].beat, 4_000_000);
    assert_eq!(kept[2].beat, 8_000_000);
    assert_eq!(kept[3].beat, 12_000_000);
    assert_eq!(kept[1].strength, 500_000);
}

fn scored(beat: i64, strength: u32) -> ScoredNote {
    ScoredNote { beat, strength, importance: strength as u64 * 1000 }
}

#[test]
fn rating_grows_with_density() {
    // Three notes over one beat at 120 BPM is six notes per second: a
    // 1.5x density of 9000 milli lands high; a sparse chart rates 1.
    let dense: Vec<ScoredNote> = (0..3).map(|i| scored(i * 500_000, 800_000)).collect();
    assert_eq!(compute_difficulty_rating(&dense, 120_000), 9);
    let sparse = vec![scored(0, 800_000), scored(40_000_000, 800_000)];
    assert_eq!(compute_difficulty_rating(&sparse, 120_000), 1);
    assert_eq!(compute_difficulty_rating(&Vec::new(), 120_000), 1);
}

#[test]
fn easy_charts_use_taps_and_holds_only() {
    let notes: Vec<ScoredNote> = (0..32).map(|i| scored(i * 1_000_000, 850_000)).collect();
    let entries = assign_note_types(&notes, Difficulty::Easy);
    assert_eq!(entries.len(), 32);
    for e in &entries {
        match e.note_type {
            ChartNoteType::Tap | ChartNoteType::Hold { .. } => {},
            ref other => panic!("Easy produced {:?}", other),
        }
    }
    // Strong downbeats become holds of 3/4 the gap.
    assert_eq!(entries[0].note_type, ChartNoteType::Hold { duration_beats: 750_000 });
}

#[test]
fn typing_is_reproducible_across_runs() {
    let notes: Vec<ScoredNote> = (0..64)
        .map(|i| scored(i * 250_000, 200_000 + (i as u32 * 37) % 800_000))
        .collect();
    let a = assign_note_types(&notes, Difficulty::Expert);
    let b = assign_note_types(&notes, Difficulty::Expert);
    assert_eq!(a, b);
}

#[test]
fn estimated_tempo_lands_near_the_pulse() {
    // Impulses every 43 frames at 44100/512 frames per second is just over
    // 120 BPM; the estimate rounds to a half BPM near it.
    let mut s = flat_spectrogram(1000, 1_000);
    let mut f = 10usize;
    while f < 1000 {
        for b in 0..1025usize {
            s.frames[f][b] = 900_000;
        }
        f += 43;
    }
    let onsets = detect_onsets(&s, 1_500, 50_000);
    assert!(onsets.len() > 10);
    let grid = track_beats(&s, &onsets, None).expect("grid in range");
    assert!(grid.bpm_milli >= 110_000 && grid.bpm_milli <= 130_000, "bpm {}", grid.bpm_milli);
    assert!(grid.beats.len() > 10);
}

#[test]
fn tempo_override_skips_estimation() {
    let s = flat_spectrogram(100, 1_000);
    let grid = track_beats(&s, &Vec::new(), Some(97_500)).expect("grid in range");
    assert_eq!(grid.bpm_milli, 97_500);
}
