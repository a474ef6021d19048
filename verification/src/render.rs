//! What the simulation hands to whoever draws it: colours, and requests to
//! draw a filled disk at a place on the screen.

use crate::fixed::{quotient, ratio, saturate, ONE};
use vstd::prelude::*;

verus! {

/// A colour; each channel is a fixed-point scalar from zero to one.
#[derive(Clone, Copy, Debug, PartialEq, Eq, Structural)]
pub struct Color {
    pub r: i64,
    pub g: i64,
    pub b: i64,
    pub a: i64,
}

/// A request to draw a filled disk: its centre in screen units, its radius
/// and its colour.
#[derive(Clone, Copy, Debug, PartialEq, Eq, Structural)]
pub struct DrawCall {
    pub x: i64,
    pub y: i64,
    pub radius: i64,
    pub color: Color,
}

/// Where on a screen axis of length `extent` the simulation coordinate `c`
/// lies: `(1 + c) / 2 * extent`, so that minus one is the near edge and one
/// the far edge.
pub open spec fn screen_position(c: i64, extent: i64) -> i64 {
    saturate(quotient((ONE + c) * extent, 2 * ONE)) as i64
}

/// Where on a screen axis of length `extent` the coordinate `c` lies.
pub fn to_screen(c: i64, extent: i64) -> (r: i64)
    ensures
        r == screen_position(c, extent),
{
    let shifted: i128 = ONE as i128 + c as i128;
    assert(-0x7000_0000_0000_0000_0000_0000_0000_0000 <= shifted * extent
        <= 0x7000_0000_0000_0000_0000_0000_0000_0000) by (nonlinear_arith)
        requires
            -0x8000_0000_0000_0000 <= shifted <= 0x8000_0000_4000_0000,
            -0x8000_0000_0000_0000 <= extent <= 0x7fff_ffff_ffff_ffff,
    ;
    ratio(shifted * extent as i128, 2 * ONE as u128)
}

} // verus!
