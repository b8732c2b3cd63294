//! Stealth-detection engine: axis-aligned wall extraction, per-observer
//! bounded visibility fans, and alarm latching.
//!
//! Geometry is carried in fixed-point coordinates: one world unit is `SCALE`
//! raw units, and every tolerance check compares exact integer products, so
//! each contract states precisely which inputs are accepted and what comes
//! back.

use vstd::prelude::*;

pub mod alarm;
pub mod angle;
pub mod codes;
pub mod geometry;
pub mod shape;
pub mod visibility;
pub mod walls;

verus! {

/// Length of one simulation tick, in fractional milliseconds.
pub struct Timestep {
    pub step: i32,
}

} // verus!
