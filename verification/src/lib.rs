//! Flattening of vector paths onto an integer grid.
//!
//! A path is a sequence of moves, lines and Bézier curves over continuous
//! coordinates. The library samples the curves at a fixed resolution, rounds
//! every point to the nearest grid cell, drops immediate repetitions, and
//! gathers the labelled text annotations that accompany the path.
//!
//! Continuous coordinates are held as signed fixed-point numbers, so every
//! result is an exact function of its inputs and every contract is stated over
//! integers.

pub mod annotation;
pub mod bezier;
pub mod binary32;
pub mod dedup;
pub mod drawing;
pub mod error;
pub mod path;
pub mod point;
pub mod rounding;
pub mod scene;
pub mod text;

use vstd::prelude::*;

verus! {

/// Number of samples taken along each curve unless the caller asks otherwise.
pub const RESOLUTION: u16 = 10;

} // verus!
