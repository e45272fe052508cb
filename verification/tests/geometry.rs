// Geometry and presentation-adjacent math: slide directions, camera easing,
// the spline with its arc-length table, the particle hash, and file stems.

use funktrack::camera::ease_in_out_cubic;
use funktrack::chart::{stem_name, Difficulty, SlideDirection};
use funktrack::particles::pseudo_random;
use funktrack::path::SplinePath;

#[test]
fn slide_direction_roundtrip_cardinals() {
    for dir in [SlideDirection::N, SlideDirection::E, SlideDirection::S, SlideDirection::W] {
        let (x, y) = dir.to_vec2();
        let back = SlideDirection::from_vec2(x, y).unwrap();
        assert_eq!(dir, back, "roundtrip failed for {:?}", dir);
    }
}

#[test]
fn slide_direction_roundtrip_diagonals() {
    for dir in [SlideDirection::NE, SlideDirection::SE, SlideDirection::SW, SlideDirection::NW] {
        let (x, y) = dir.to_vec2();
        let back = SlideDirection::from_vec2(x, y).unwrap();
        assert_eq!(dir, back, "roundtrip failed for {:?}", dir);
    }
}

#[test]
fn slide_direction_dead_zone() {
    assert!(SlideDirection::from_vec2(0, 0).is_none());
    assert!(SlideDirection::from_vec2(50_000, 50_000).is_none());
}

#[test]
fn slide_direction_from_vec2_off_axis() {
    // Slightly off-axis input still quantizes to the nearest direction.
    assert_eq!(SlideDirection::from_vec2(900_000, 200_000), Some(SlideDirection::E));
    assert_eq!(SlideDirection::from_vec2(200_000, 900_000), Some(SlideDirection::N));
}

#[test]
fn ease_in_out_cubic_boundaries() {
    assert_eq!(ease_in_out_cubic(0), 0);
    assert_eq!(ease_in_out_cubic(1_000_000), 1_000_000);
    assert_eq!(ease_in_out_cubic(500_000), 500_000);
}

#[test]
fn ease_in_out_cubic_clamps() {
    assert_eq!(ease_in_out_cubic(-1_000_000), 0);
    assert_eq!(ease_in_out_cubic(2_000_000), 1_000_000);
}

#[test]
fn ease_in_out_cubic_symmetry() {
    let a = ease_in_out_cubic(250_000);
    let b = ease_in_out_cubic(750_000);
    assert_eq!(a + b, 1_000_000);
    assert_eq!(a, 62_500);
}

fn s_curve() -> SplinePath {
    // The track's standard S-curve, micro-pixels.
    let points: Vec<(i64, i64)> = vec![
        (-500_000_000, -200_000_000),
        (-250_000_000, 200_000_000),
        (-50_000_000, -150_000_000),
        (50_000_000, 150_000_000),
        (250_000_000, -200_000_000),
        (500_000_000, 200_000_000),
    ];
    SplinePath::from_catmull_rom_points(points, 1000).expect("valid control points")
}

#[test]
fn spline_rejects_too_few_points() {
    let points: Vec<(i64, i64)> = vec![(0, 0), (1_000_000, 0), (2_000_000, 0)];
    assert!(SplinePath::from_catmull_rom_points(points, 1000).is_none());
}

#[test]
fn spline_endpoints_sit_on_interior_control_points() {
    // A Catmull-Rom curve passes through its interior control points.
    let path = s_curve();
    let start = path.position_at_progress(0);
    assert_eq!(start, (-250_000_000, 200_000_000));
    let end = path.position_at_progress(1_000_000);
    assert_eq!(end, (250_000_000, -200_000_000));
}

#[test]
fn spline_progress_clamps() {
    let path = s_curve();
    assert_eq!(path.position_at_progress(-500_000), path.position_at_progress(0));
    assert_eq!(path.position_at_progress(1_500_000), path.position_at_progress(1_000_000));
}

#[test]
fn spline_position_is_a_pure_function() {
    let path = s_curve();
    for p in [0i64, 137_000, 250_000, 600_000, 999_999] {
        assert_eq!(path.position_at_progress(p), path.position_at_progress(p));
    }
    let again = s_curve();
    assert_eq!(path.position_at_progress(421_337), again.position_at_progress(421_337));
}

#[test]
fn arc_length_table_makes_progress_uniform() {
    // Chord length from the start to position(p), measured over a fine
    // subdivision, stays within 1% of p times the total length.
    let path = s_curve();
    let total = path.total_length() as f64;
    for &p in &[250_000i64, 500_000, 750_000, 1_000_000] {
        let steps = 400;
        let mut length = 0.0f64;
        let mut prev = path.position_at_progress(0);
        for k in 1..=steps {
            let q = p * k / steps;
            let pos = path.position_at_progress(q);
            let dx = (pos.0 - prev.0) as f64;
            let dy = (pos.1 - prev.1) as f64;
            length += (dx * dx + dy * dy).sqrt();
            prev = pos;
        }
        let expected = p as f64 / 1_000_000.0 * total;
        let error = (length - expected).abs();
        assert!(
            error <= total / 100.0,
            "progress {} gave length {} expected {}",
            p,
            length,
            expected
        );
    }
}

#[test]
fn tangent_points_along_travel() {
    let path = s_curve();
    // The S-curve runs left to right: the tangent's x-component is positive
    // along the whole run.
    for &p in &[0i64, 250_000, 500_000, 750_000, 1_000_000] {
        let (tx, _) = path.tangent_at_progress(p);
        assert!(tx > 0, "tangent x at {} was {}", p, tx);
    }
}

#[test]
fn particle_hash_is_deterministic_and_bounded() {
    for index in 0..64u32 {
        for seed in 0..4u32 {
            let a = pseudo_random(index, seed);
            let b = pseudo_random(index, seed);
            assert_eq!(a, b);
            assert!(a <= 0xFFFF);
        }
    }
    // Different indices spread over the range.
    assert_ne!(pseudo_random(0, 0), pseudo_random(1, 0));
}

#[test]
fn stem_name_takes_final_component_without_extension() {
    assert_eq!(stem_name("songs/track01.ogg"), "track01");
    assert_eq!(stem_name("a.tar.gz"), "a.tar");
    assert_eq!(stem_name(".hidden"), ".hidden");
    assert_eq!(stem_name("plain"), "plain");
    assert_eq!(stem_name("dir/"), "");
}

#[test]
fn difficulty_metadata_is_stable() {
    assert_eq!(Difficulty::Easy.filename(), "easy.ron");
    assert_eq!(Difficulty::Expert.label(), "EXPERT");
    assert_eq!(Difficulty::Easy.grid_resolution(), 1);
    assert_eq!(Difficulty::Expert.grid_resolution(), 8);
    assert_eq!(Difficulty::Normal.travel_beats(), 3_500_000);
    assert_eq!(Difficulty::Hard.importance_percentile(), 20);
}
