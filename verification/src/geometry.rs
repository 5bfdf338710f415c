//! Points, camera translations and the transient segments of a stroke.
//!
//! All coordinates are fixed-point integers that count `UNIT`ths (see
//! [`crate::fixed`]), so that the world reaches 8388608 units from the origin
//! in each direction.

use vstd::prelude::*;
use crate::fixed::{
    floor_sqrt, isqrt, lemma_floor_sqrt_exists, lemma_floor_sqrt_monotone,
    lemma_floor_sqrt_of_square, ONE, UNIT,
};

verus! {

/// A position in the plane: a world-space sample of a stroke, or a cursor
/// position in window space.
#[derive(Clone, Copy, Debug, PartialEq, Eq, Structural)]
pub struct Point {
    pub x: i32,
    pub y: i32,
}

/// The difference of two points. Its components do not always fit the
/// coordinate type, so they are held one size wider.
#[derive(Clone, Copy, Debug, PartialEq, Eq, Structural)]
pub struct Offset {
    pub dx: i64,
    pub dy: i64,
}

/// The position of the camera. Panning and zooming move `x` and `y`; `z` is
/// carried along unchanged.
#[derive(Clone, Copy, Debug, PartialEq, Eq, Structural)]
pub struct Translation {
    pub x: i32,
    pub y: i32,
    pub z: i32,
}

/// The piece of a stroke between two consecutive samples, shown while the
/// stroke is still being drawn.
#[derive(Clone, Copy, Debug, PartialEq, Eq, Structural)]
pub struct PenStroke {
    pub from: Point,
    pub to: Point,
}

/// Squared Euclidean distance between two points, in squared raw units.
pub open spec fn dist_sq(a: Point, b: Point) -> int {
    (a.x - b.x) * (a.x - b.x) + (a.y - b.y) * (a.y - b.y)
}

/// Whether the distance from `last` to `sample` is strictly greater than the
/// spacing threshold `spacing` multiplied by the camera scale `scale`.
///
/// With distances `d / UNIT`, thresholds `spacing / ONE` and scales
/// `scale / ONE`, the comparison `d / UNIT > (spacing / ONE) * (scale / ONE)`
/// is squared and cleared of fractions, which keeps it exact.
pub open spec fn exceeds_spacing(last: Point, sample: Point, spacing: int, scale: int) -> bool {
    (ONE * ONE) * (ONE * ONE) * dist_sq(last, sample) > (spacing * scale * UNIT) * (spacing
        * scale * UNIT)
}

impl Point {
    /// The point with the given raw coordinates.
    pub fn new(x: i32, y: i32) -> (p: Point)
        ensures
            p == (Point { x, y }),
    {
        Point { x, y }
    }

    /// Squared distance to `other`.
    pub fn distance_squared(&self, other: &Point) -> (d: u128)
        ensures
            d == dist_sq(*self, *other),
    {
        let dx: i128 = self.x as i128 - other.x as i128;
        let dy: i128 = self.y as i128 - other.y as i128;
        assert(0 <= dx * dx <= 0x1_0000_0000_0000_0000) by (nonlinear_arith)
            requires
                -0x1_0000_0000 <= dx <= 0x1_0000_0000,
        ;
        assert(0 <= dy * dy <= 0x1_0000_0000_0000_0000) by (nonlinear_arith)
            requires
                -0x1_0000_0000 <= dy <= 0x1_0000_0000,
        ;
        (dx * dx + dy * dy) as u128
    }

    /// Whether `self` lies farther from `last` than `spacing` scaled by
    /// `scale`: the minimum-spacing test of stroke capture.
    pub fn exceeds_spacing_from(&self, last: &Point, spacing: u32, scale: u32) -> (far: bool)
        ensures
            far == exceeds_spacing(*last, *self, spacing as int, scale as int),
    {
        let d: u128 = last.distance_squared(self);
        assert(0 <= spacing * scale <= 0xffff_ffff_ffff_ffff) by (nonlinear_arith)
            requires
                0 <= spacing <= 0xffff_ffff,
                0 <= scale <= 0xffff_ffff,
        ;
        let threshold: u128 = spacing as u128 * scale as u128;
        assert(0 <= threshold * threshold <= u128::MAX) by (nonlinear_arith)
            requires
                0 <= threshold <= 0xffff_ffff_ffff_ffff,
        ;
        assert(d <= 0x2_0000_0000_0000_0000) by (nonlinear_arith)
            requires
                d == dist_sq(*last, *self),
                -0x1_0000_0000 <= last.x - self.x <= 0x1_0000_0000,
                -0x1_0000_0000 <= last.y - self.y <= 0x1_0000_0000,
        ;
        // both sides of the comparison are divided by the square of `UNIT`
        let ratio: u128 = 0x100_0000;
        assert(ratio * ratio == 0x1_0000_0000_0000) by (nonlinear_arith)
            requires
                ratio == 0x100_0000,
        ;
        assert(ratio * ratio * d <= 0x2_0000_0000_0000_0000_0000_0000_0000) by (nonlinear_arith)
            requires
                ratio * ratio == 0x1_0000_0000_0000,
                0 <= d <= 0x2_0000_0000_0000_0000,
        ;
        assert((ratio * ratio * d > threshold * threshold) == exceeds_spacing(
            *last,
            *self,
            spacing as int,
            scale as int,
        )) by (nonlinear_arith)
            requires
                ratio == 0x100_0000,
                threshold == spacing * scale,
                d == dist_sq(*last, *self),
                exceeds_spacing(*last, *self, spacing as int, scale as int) == ((65536 * 65536)
                    * (65536 * 65536) * dist_sq(*last, *self) > (spacing * scale * 256) * (spacing
                    * scale * 256)),
        ;
        ratio * ratio * d > threshold * threshold
    }
}

impl PenStroke {
    /// The length of the segment, rounded down to a whole raw unit.
    pub open spec fn spec_length(self) -> int {
        floor_sqrt(dist_sq(self.from, self.to))
    }

    /// The vector from the start of the segment to its end. Its direction is
    /// the rotation of the segment; for a degenerate segment it is zero.
    pub fn delta(&self) -> (d: Offset)
        ensures
            d.dx == self.to.x - self.from.x,
            d.dy == self.to.y - self.from.y,
    {
        Offset {
            dx: self.to.x as i64 - self.from.x as i64,
            dy: self.to.y as i64 - self.from.y as i64,
        }
    }

    /// The point halfway along the segment, where it is drawn; each
    /// coordinate is rounded down.
    pub fn midpoint(&self) -> (m: Point)
        ensures
            m.x == (self.from.x + self.to.x) / 2,
            m.y == (self.from.y + self.to.y) / 2,
    {
        Point {
            x: floor_half(self.from.x as i64 + self.to.x as i64) as i32,
            y: floor_half(self.from.y as i64 + self.to.y as i64) as i32,
        }
    }

    /// The length of the segment, rounded down.
    pub fn length(&self) -> (len: u64)
        ensures
            len == self.spec_length(),
    {
        isqrt(self.from.distance_squared(&self.to))
    }

    /// Whether the segment joins a point to itself.
    pub fn is_degenerate(&self) -> (flat: bool)
        ensures
            flat == (self.from == self.to),
            flat == (self.spec_length() == 0),
    {
        proof {
            let d = dist_sq(self.from, self.to);
            let dx = self.from.x - self.to.x;
            let dy = self.from.y - self.to.y;
            assert(dx * dx >= 0 && dy * dy >= 0 && (dx != 0 ==> dx * dx >= 1) && (dy != 0
                ==> dy * dy >= 1)) by (nonlinear_arith);
            lemma_floor_sqrt_exists(d);
            if self.from == self.to {
                assert(dx * dx == 0 && dy * dy == 0) by (nonlinear_arith)
                    requires
                        dx == 0,
                        dy == 0,
                ;
                lemma_floor_sqrt_of_square(0);
            } else {
                lemma_floor_sqrt_monotone(1, d);
                lemma_floor_sqrt_of_square(1);
            }
        }
        self.from.x == self.to.x && self.from.y == self.to.y
    }
}

/// Half of `v`, rounded down.
fn floor_half(v: i64) -> (h: i64)
    requires
        -0x1_0000_0000 <= v <= 0x1_0000_0000,
    ensures
        h == v / 2,
{
    if v >= 0 {
        v / 2
    } else {
        (v - 1) / 2
    }
}

} // verus!
