//! Input event messages consumed by judgment. Each carries the conductor's
//! beat (micro-beats) at the moment the device reported the gesture; beat
//! values pass through to the timing math verbatim.

use vstd::prelude::*;

verus! {

use crate::chart::SlideDirection;

/// Largest input beat magnitude the judgment arithmetic accepts, micro-beats.
pub const INPUT_BEAT_ABS: i64 = 1_000_000_000_000;

/// A tap gesture.
#[derive(Debug, Clone, Copy, PartialEq, Eq, Structural)]
pub struct TapInput {
    pub beat: i64,
}

/// A directional slide gesture.
#[derive(Debug, Clone, Copy, PartialEq, Eq, Structural)]
pub struct SlideInput {
    pub beat: i64,
    pub direction: SlideDirection,
}

/// A critical (both-buttons) gesture.
#[derive(Debug, Clone, Copy, PartialEq, Eq, Structural)]
pub struct CriticalInput {
    pub beat: i64,
}

/// A scratch gesture; reserved for the scratch note kind.
#[derive(Debug, Clone, Copy, PartialEq, Eq, Structural)]
pub struct ScratchInput {
    pub beat: i64,
}

/// A two-direction slide gesture; reserved for the dual-slide note kind.
#[derive(Debug, Clone, Copy, PartialEq, Eq, Structural)]
pub struct DualSlideInput {
    pub beat: i64,
    pub dir_a: SlideDirection,
    pub dir_b: SlideDirection,
}

} // verus!
