//! Size bounds under which all of the library's exact integer arithmetic is
//! proved free of overflow.
//!
//! Nearest-centroid decisions compare squared point-to-centroid distances by
//! cross-multiplication. With coordinates bounded by `MAX_ABS_COORDINATE`,
//! at most `MAX_POINT_COUNT` points and at most `MAX_DIMENSION` coordinates
//! per point, every intermediate value fits comfortably in 128-bit integers:
//! a cross-multiplied comparison term is at most
//! `MAX_DIMENSION * (2 * MAX_POINT_COUNT * MAX_ABS_COORDINATE)^2 * MAX_POINT_COUNT^2`,
//! which is below 2^123.

use vstd::prelude::*;

verus! {

/// Largest magnitude a single coordinate may have (2^20).
pub const MAX_ABS_COORDINATE: i64 = 1_048_576;

/// Largest number of points a dataset may hold (2^16).
pub const MAX_POINT_COUNT: usize = 65_536;

/// Largest number of coordinates a point may have (2^16).
pub const MAX_DIMENSION: usize = 65_536;

} // verus!
