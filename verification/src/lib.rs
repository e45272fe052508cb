//! Rhythm-engine core: a drift-correcting beat clock, an arc-length
//! parameterized spline, note scheduling and judgment, deterministic scoring,
//! and the offline chart-generation pipeline.
//!
//! All musical and geometric quantities are fixed-point integers: beats,
//! seconds and screen coordinates are carried in micro-units (millionths),
//! BPM in milli-units (thousandths). This keeps every rule of the engine in
//! exact integer arithmetic.

pub mod beat;
pub mod camera;
pub mod chart;
pub mod conductor;
pub mod difficulty;
pub mod fixed;
pub mod input;
pub mod judgment;
pub mod note_types;
pub mod notes;
pub mod onset;
pub mod particles;
pub mod path;
pub mod quantize;
pub mod scoring;
pub mod stft;
