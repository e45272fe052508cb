//! Chart data model: difficulties, note and event declarations, path
//! segments, timing points and song metadata.
//!
//! Beats and screen coordinates are micro-units, BPM milli-units. The
//! declarative note union carries every supported kind, including the
//! reserved ones the runtime skips.

use vstd::prelude::*;

verus! {

use vstd::string::*;

/// Chart difficulty.
#[derive(Debug, Clone, Copy, PartialEq, Eq, Hash, Structural)]
pub enum Difficulty {
    Easy,
    Normal,
    Hard,
    Expert,
}

/// Grid resolution (subdivisions per beat) a difficulty quantizes to.
pub open spec fn spec_grid_resolution(d: Difficulty) -> int {
    match d {
        Difficulty::Easy => 1,
        Difficulty::Normal => 2,
        Difficulty::Hard => 4,
        Difficulty::Expert => 8,
    }
}

/// Importance percentile (percent) below which a difficulty drops notes.
pub open spec fn spec_importance_percent(d: Difficulty) -> int {
    match d {
        Difficulty::Easy => 80,
        Difficulty::Normal => 50,
        Difficulty::Hard => 20,
        Difficulty::Expert => 0,
    }
}

/// Beats a note travels from spawn to the judgment line, micro-beats.
pub open spec fn spec_travel_beats(d: Difficulty) -> int {
    match d {
        Difficulty::Easy => 4_000_000,
        Difficulty::Normal => 3_500_000,
        Difficulty::Hard => 3_000_000,
        Difficulty::Expert => 3_000_000,
    }
}

/// Minimum beat gap between two kept notes, micro-beats.
pub open spec fn spec_min_note_gap(d: Difficulty) -> int {
    match d {
        Difficulty::Easy => 1_000_000,
        Difficulty::Normal => 500_000,
        Difficulty::Hard => 250_000,
        Difficulty::Expert => 125_000,
    }
}

impl Difficulty {
    /// Chart file name for this difficulty.
    pub fn filename(&self) -> (r: &'static str)
        ensures
            match self {
                Difficulty::Easy => r@ == "easy.ron"@,
                Difficulty::Normal => r@ == "normal.ron"@,
                Difficulty::Hard => r@ == "hard.ron"@,
                Difficulty::Expert => r@ == "expert.ron"@,
            },
    {
        match self {
            Difficulty::Easy => "easy.ron",
            Difficulty::Normal => "normal.ron",
            Difficulty::Hard => "hard.ron",
            Difficulty::Expert => "expert.ron",
        }
    }

    /// Display label for this difficulty.
    pub fn label(&self) -> (r: &'static str)
        ensures
            match self {
                Difficulty::Easy => r@ == "EASY"@,
                Difficulty::Normal => r@ == "NORMAL"@,
                Difficulty::Hard => r@ == "HARD"@,
                Difficulty::Expert => r@ == "EXPERT"@,
            },
    {
        match self {
            Difficulty::Easy => "EASY",
            Difficulty::Normal => "NORMAL",
            Difficulty::Hard => "HARD",
            Difficulty::Expert => "EXPERT",
        }
    }

    /// Beat-grid quantization resolution (subdivisions per beat).
    pub fn grid_resolution(&self) -> (r: u32)
        ensures
            r == spec_grid_resolution(*self),
    {
        match self {
            Difficulty::Easy => 1,
            Difficulty::Normal => 2,
            Difficulty::Hard => 4,
            Difficulty::Expert => 8,
        }
    }

    /// Keep onsets above this importance percentile (percent).
    pub fn importance_percentile(&self) -> (r: u32)
        ensures
            r == spec_importance_percent(*self),
    {
        match self {
            Difficulty::Easy => 80,
            Difficulty::Normal => 50,
            Difficulty::Hard => 20,
            Difficulty::Expert => 0,
        }
    }

    /// How many beats a note takes to travel from spawn to judgment
    /// (micro-beats).
    pub fn travel_beats(&self) -> (r: i64)
        ensures
            r == spec_travel_beats(*self),
    {
        match self {
            Difficulty::Easy => 4_000_000,
            Difficulty::Normal => 3_500_000,
            Difficulty::Hard => 3_000_000,
            Difficulty::Expert => 3_000_000,
        }
    }

    /// Minimum beat gap enforced between kept notes (micro-beats).
    pub fn min_note_gap(&self) -> (r: i64)
        ensures
            r == spec_min_note_gap(*self),
    {
        match self {
            Difficulty::Easy => 1_000_000,
            Difficulty::Normal => 500_000,
            Difficulty::Hard => 250_000,
            Difficulty::Expert => 125_000,
        }
    }
}

/// One of the eight slide directions.
#[derive(Debug, Clone, Copy, PartialEq, Eq, Hash, Structural)]
pub enum SlideDirection {
    N,
    NE,
    E,
    SE,
    S,
    SW,
    W,
    NW,
}

/// `1/sqrt(2)` in micro-units, the diagonal unit-vector component.
pub const DIAG_COMPONENT: i64 = 707_107;

/// `tan(22.5 degrees)` in micro-units: the slope of a sector boundary.
pub const SECTOR_TAN: i64 = 414_214;

/// Squared dead-zone radius, in squared micro-units (`0.01` square units).
pub const DEAD_ZONE_SQ: i64 = 10_000_000_000;

/// Unit vector (micro-units) of a slide direction.
pub open spec fn spec_to_vec2(d: SlideDirection) -> (int, int) {
    match d {
        SlideDirection::N => (0, 1_000_000),
        SlideDirection::NE => (DIAG_COMPONENT as int, DIAG_COMPONENT as int),
        SlideDirection::E => (1_000_000, 0),
        SlideDirection::SE => (DIAG_COMPONENT as int, -DIAG_COMPONENT),
        SlideDirection::S => (0, -1_000_000),
        SlideDirection::SW => (-DIAG_COMPONENT, -DIAG_COMPONENT),
        SlideDirection::W => (-1_000_000, 0),
        SlideDirection::NW => (-DIAG_COMPONENT, DIAG_COMPONENT as int),
    }
}

/// Quantization of a vector (micro-units) to one of eight directions:
/// `None` inside the dead zone; otherwise the 45-degree sector, with sector
/// boundaries 22.5 degrees off the axes.
pub open spec fn spec_from_vec2(x: int, y: int) -> Option<SlideDirection> {
    if x * x + y * y < DEAD_ZONE_SQ {
        None
    } else {
        let ax = if x >= 0 { x } else { -x };
        let ay = if y >= 0 { y } else { -y };
        if 1_000_000 * ay < SECTOR_TAN * ax {
            if x >= 0 {
                Some(SlideDirection::E)
            } else {
                Some(SlideDirection::W)
            }
        } else if 1_000_000 * ax < SECTOR_TAN * ay {
            if y >= 0 {
                Some(SlideDirection::N)
            } else {
                Some(SlideDirection::S)
            }
        } else {
            if x >= 0 && y >= 0 {
                Some(SlideDirection::NE)
            } else if x >= 0 {
                Some(SlideDirection::SE)
            } else if y >= 0 {
                Some(SlideDirection::NW)
            } else {
                Some(SlideDirection::SW)
            }
        }
    }
}

impl SlideDirection {
    /// Unit vector for this direction, micro-units.
    pub fn to_vec2(self) -> (r: (i64, i64))
        ensures
            r.0 == spec_to_vec2(self).0,
            r.1 == spec_to_vec2(self).1,
    {
        match self {
            SlideDirection::N => (0, 1_000_000),
            SlideDirection::NE => (707_107, 707_107),
            SlideDirection::E => (1_000_000, 0),
            SlideDirection::SE => (707_107, -707_107),
            SlideDirection::S => (0, -1_000_000),
            SlideDirection::SW => (-707_107, -707_107),
            SlideDirection::W => (-1_000_000, 0),
            SlideDirection::NW => (-707_107, 707_107),
        }
    }

    /// Quantize an input vector (micro-units) to one of 8 directions.
    /// Returns `None` for near-zero vectors (dead zone).
    pub fn from_vec2(x: i64, y: i64) -> (r: Option<SlideDirection>)
        requires
            -1_000_000_000_000 <= x <= 1_000_000_000_000,
            -1_000_000_000_000 <= y <= 1_000_000_000_000,
        ensures
            r == spec_from_vec2(x as int, y as int),
    {
        proof {
            crate::fixed::lemma_mul_abs_bound(
                x as int,
                x as int,
                1_000_000_000_000,
                1_000_000_000_000,
            );
            crate::fixed::lemma_mul_abs_bound(
                y as int,
                y as int,
                1_000_000_000_000,
                1_000_000_000_000,
            );
        }
        let len_sq: i128 = x as i128 * x as i128 + y as i128 * y as i128;
        if len_sq < DEAD_ZONE_SQ as i128 {
            return None;
        }
        let ax: i64 = if x >= 0 { x } else { -x };
        let ay: i64 = if y >= 0 { y } else { -y };
        let lhs_h: i128 = 1_000_000 * ay as i128;
        let rhs_h: i128 = 414_214i128 * ax as i128;
        let lhs_v: i128 = 1_000_000 * ax as i128;
        let rhs_v: i128 = 414_214i128 * ay as i128;
        if lhs_h < rhs_h {
            if x >= 0 {
                Some(SlideDirection::E)
            } else {
                Some(SlideDirection::W)
            }
        } else if lhs_v < rhs_v {
            if y >= 0 {
                Some(SlideDirection::N)
            } else {
                Some(SlideDirection::S)
            }
        } else {
            if x >= 0 && y >= 0 {
                Some(SlideDirection::NE)
            } else if x >= 0 {
                Some(SlideDirection::SE)
            } else if y >= 0 {
                Some(SlideDirection::NW)
            } else {
                Some(SlideDirection::SW)
            }
        }
    }
}

/// Slide direction round-trip: quantizing a direction's own unit vector gives
/// the direction back, and the zero vector quantizes to nothing.
pub proof fn lemma_slide_direction_roundtrip()
    ensures
        forall|d: SlideDirection| spec_from_vec2(
            #[trigger] spec_to_vec2(d).0,
            spec_to_vec2(d).1,
        ) == Some(d),
        spec_from_vec2(0, 0) == None::<SlideDirection>,
{
    assert forall|d: SlideDirection| spec_from_vec2(
        #[trigger] spec_to_vec2(d).0,
        spec_to_vec2(d).1,
    ) == Some(d) by {
        match d {
            SlideDirection::N => {
                assert(spec_from_vec2(0, 1_000_000) == Some(SlideDirection::N)) by (nonlinear_arith);
            },
            SlideDirection::NE => {
                assert(spec_from_vec2(707_107, 707_107) == Some(SlideDirection::NE)) by (nonlinear_arith);
            },
            SlideDirection::E => {
                assert(spec_from_vec2(1_000_000, 0) == Some(SlideDirection::E)) by (nonlinear_arith);
            },
            SlideDirection::SE => {
                assert(spec_from_vec2(707_107, -707_107) == Some(SlideDirection::SE)) by (nonlinear_arith);
            },
            SlideDirection::S => {
                assert(spec_from_vec2(0, -1_000_000) == Some(SlideDirection::S)) by (nonlinear_arith);
            },
            SlideDirection::SW => {
                assert(spec_from_vec2(-707_107, -707_107) == Some(SlideDirection::SW)) by (nonlinear_arith);
            },
            SlideDirection::W => {
                assert(spec_from_vec2(-1_000_000, 0) == Some(SlideDirection::W)) by (nonlinear_arith);
            },
            SlideDirection::NW => {
                assert(spec_from_vec2(-707_107, 707_107) == Some(SlideDirection::NW)) by (nonlinear_arith);
            },
        }
    }
    assert(spec_from_vec2(0, 0) == None::<SlideDirection>) by (nonlinear_arith);
}

/// Declarative note union, including kinds reserved for future runtimes.
#[derive(Debug, Clone, Copy, PartialEq, Eq, Structural)]
pub enum ChartNoteType {
    Tap,
    Hold { duration_beats: i64 },
    Slide { direction: SlideDirection },
    SlideHold { direction: SlideDirection, duration_beats: i64 },
    Scratch,
    Beat,
    Critical,
    CriticalHold { duration_beats: i64 },
    DualSlide { left: SlideDirection, right: SlideDirection },
    AdLib,
    Rest,
}

/// One declared note: a beat position (micro-beats) and its kind.
#[derive(Debug, Clone, Copy, PartialEq, Eq, Structural)]
pub struct ChartNoteEntry {
    pub beat: i64,
    pub note_type: ChartNoteType,
}

/// A declared tempo change.
#[derive(Debug, Clone, Copy, PartialEq, Eq)]
pub struct ChartTimingPoint {
    /// Beat (micro-beats) at which the tempo takes effect.
    pub beat: i64,
    /// Tempo, milli-BPM.
    pub bpm_milli: u32,
    /// Time signature, beats per measure over beat unit.
    pub time_signature: (u32, u32),
}

/// Path geometry declaration. The runtime consumes CatmullRom segments; the
/// other shapes are reserved.
#[derive(Debug)]
pub enum PathSegment {
    CatmullRom { points: Vec<(i64, i64)>, start_beat: i64, end_beat: i64 },
    Bezier { control_points: Vec<(i64, i64)>, start_beat: i64, end_beat: i64 },
    Arc {
        center: (i64, i64),
        radius: i64,
        start_angle_micro: i64,
        end_angle_micro: i64,
        start_beat: i64,
        end_beat: i64,
    },
    Linear { start: (i64, i64), end: (i64, i64), start_beat: i64, end_beat: i64 },
}

/// Camera and visual event declarations, forwarded to the renderer unchanged.
#[derive(Debug, Clone, Copy, PartialEq, Eq)]
pub enum EventType {
    CameraZoom { scale_micro: i64, duration_beats: i64 },
    CameraPan { offset: (i64, i64), duration_beats: i64 },
    CameraRotate { angle_degrees_micro: i64, duration_beats: i64 },
    ColorShift { hue_micro: i64, duration_beats: i64 },
    PathGlow { intensity_micro: i64 },
    BackgroundPulse,
    SpeedChange { multiplier_micro: i64, duration_beats: i64 },
}

/// An event anchored at a beat.
#[derive(Debug, Clone, Copy, PartialEq, Eq)]
pub struct ChartEvent {
    pub beat: i64,
    pub event: EventType,
}

/// One difficulty's chart.
#[derive(Debug)]
pub struct ChartFile {
    pub difficulty: Difficulty,
    pub difficulty_rating: u32,
    pub timing_points: Vec<ChartTimingPoint>,
    pub path_segments: Vec<PathSegment>,
    pub notes: Vec<ChartNoteEntry>,
    pub events: Vec<ChartEvent>,
    /// Beats a note travels from spawn to judgment, micro-beats.
    pub travel_beats: i64,
    /// Beats of spawn look-ahead, micro-beats.
    pub look_ahead_beats: i64,
}

/// Song metadata shared by all difficulties of one song.
#[derive(Debug, Clone)]
pub struct SongMetadata {
    pub title: String,
    pub artist: String,
    pub charter: String,
    pub audio_file: String,
    pub preview_start_ms: u64,
    pub preview_duration_ms: u64,
    pub source: String,
    pub difficulties: Vec<Difficulty>,
}

/// Default preview length when the metadata leaves it out, milliseconds.
pub fn default_preview_duration() -> (r: u64)
    ensures
        r == 15_000,
{
    15_000
}

/// Default note travel time when the chart leaves it out, micro-beats.
pub fn default_travel_beats() -> (r: i64)
    ensures
        r == 3_000_000,
{
    3_000_000
}

/// Default spawn look-ahead when the chart leaves it out, micro-beats.
pub fn default_look_ahead() -> (r: i64)
    ensures
        r == 3_000_000,
{
    3_000_000
}

/// Default time signature when a timing point leaves it out.
pub fn default_time_sig() -> (r: (u32, u32))
    ensures
        r == (4u32, 4u32),
{
    (4, 4)
}

/// Index one past the last path separator among the first `i` characters.
pub open spec fn spec_stem_start(s: Seq<char>, i: int) -> int
    decreases i,
{
    if i <= 0 {
        0
    } else if s[i - 1] == '/' || s[i - 1] == '\\' {
        i
    } else {
        spec_stem_start(s, i - 1)
    }
}

/// The last dot strictly inside the final component among the first `i`
/// characters, or the string's length when the component has none (a name
/// that only starts with a dot keeps it).
pub open spec fn spec_stem_end(s: Seq<char>, start: int, i: int) -> int
    decreases i,
{
    if i <= start + 1 || i <= 0 {
        s.len() as int
    } else if s[i - 1] == '.' {
        i - 1
    } else {
        spec_stem_end(s, start, i - 1)
    }
}

/// The stem of a file path: the final component, without its extension.
/// Used to derive a song title from its audio file name.
pub fn stem_name(path: &str) -> (r: String)
    ensures
        r@ == path@.subrange(
            spec_stem_start(path@, path@.len() as int),
            spec_stem_end(
                path@,
                spec_stem_start(path@, path@.len() as int),
                path@.len() as int,
            ),
        ),
{
    let n = path.unicode_len();
    let mut start: usize = 0;
    let mut i: usize = 0;
    while i < n
        invariant
            0 <= i <= n == path@.len(),
            0 <= start <= i,
            start == spec_stem_start(path@, i as int),
        decreases n - i,
    {
        let c = path.get_char(i);
        if c == '/' || c == '\\' {
            start = i + 1;
        }
        i = i + 1;
    }

    let mut end: usize = n;
    let mut found_dot = false;
    let mut i: usize = if start < n {
        start + 1
    } else {
        n
    };
    let ghost scan_base = i;
    proof {
        assert(spec_stem_end(path@, start as int, scan_base as int) == path@.len());
    }
    while i < n
        invariant
            start <= n == path@.len(),
            scan_base <= i <= n,
            scan_base == if start + 1 <= n {
                start + 1
            } else {
                n as int
            },
            found_dot ==> start < end < n,
            !found_dot ==> end == n,
            spec_stem_end(path@, start as int, i as int) == if found_dot {
                end as int
            } else {
                path@.len() as int
            },
        decreases n - i,
    {
        let c = path.get_char(i);
        if c == '.' {
            end = i;
            found_dot = true;
        }
        i = i + 1;
    }
    proof {
        assert(spec_stem_end(path@, start as int, n as int) == if found_dot {
            end as int
        } else {
            path@.len() as int
        });
    }
    let stem = path.substring_char(start, end);
    String::from_str(stem)
}

} // verus!
