//! Default view parameters, in the fixed-point plane representation of
//! [`crate::fixed`].

use vstd::prelude::*;

verus! {

/// Default iteration budget (2^10).
pub const ITERATIONS: u32 = 1024;

/// Default output width in pixels.
pub const WIDTH: usize = 1280;

/// Default output height in pixels.
pub const HEIGHT: usize = 720;

/// Zoom step per user action: 0.05 in fixed point.
pub const ZOOM_FACTOR: i64 = 14073748835533;

/// Pan step per user action: 0.06 in fixed point.
pub const PAN_FACTOR: i64 = 16888498602639;

} // verus!
