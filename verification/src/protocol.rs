//! The plain values that cross the boundary to the judgment core: which
//! kind of input an event is, which kind of note a judgment is for, and the
//! grade it got.
use vstd::prelude::*;

verus! {

/// Number of ring buttons.
pub const BUTTON_ZONE_COUNT: usize = 8;

/// Number of touch areas.
pub const SENSOR_AREA_COUNT: usize = 33;

/// Whether an input event comes from a ring button or a touch area.
#[derive(Clone, Copy, Debug, PartialEq, Eq, Structural)]
pub enum InputKind {
    Button,
    Sensor,
}

/// The kind of note a judgment is for.
#[derive(Clone, Copy, Debug, PartialEq, Eq, Structural)]
pub enum JudgeEventKind {
    Tap,
    Hold,
    Slide,
    Touch,
    Break,
}

/// The grade of a judgment, from a miss through the late grades, the
/// critical perfect, and the fast grades to too fast.
#[derive(Clone, Copy, Debug, PartialEq, Eq, Structural)]
pub enum JudgeGrade {
    Miss,
    LateGood,
    LateGreat3rd,
    LateGreat2nd,
    LateGreat,
    LatePerfect3rd,
    LatePerfect2nd,
    Perfect,
    FastPerfect2nd,
    FastPerfect3rd,
    FastGreat,
    FastGreat2nd,
    FastGreat3rd,
    FastGood,
    TooFast,
}

} // verus!
