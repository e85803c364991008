//! Plane vectors: stored positions and velocities, and wide force sums.

use crate::fixed::in_range;
use vstd::prelude::*;

verus! {

/// A position or a velocity, as two raw fixed-point values.
#[derive(Clone, Copy, Debug, PartialEq, Eq, Structural)]
pub struct Vec2 {
    pub x: i64,
    pub y: i64,
}

/// A force, or a sum of forces, as two raw fixed-point values wide enough that
/// sums over every particle of a world are exact.
#[derive(Clone, Copy, Debug, PartialEq, Eq, Structural)]
pub struct Force {
    pub x: i128,
    pub y: i128,
}

/// Squared distance between two points, exactly.
pub open spec fn dist2(a: Vec2, b: Vec2) -> int {
    (b.x - a.x) * (b.x - a.x) + (b.y - a.y) * (b.y - a.y)
}

/// The squared distance is symmetric, never negative, zero exactly between
/// equal points, and bounds both coordinate differences.
pub proof fn lemma_dist2(a: Vec2, b: Vec2)
    ensures
        dist2(a, b) == dist2(b, a),
        dist2(a, b) >= 0,
        dist2(a, b) == 0 <==> a == b,
        (b.x - a.x) * (b.x - a.x) <= dist2(a, b),
        (b.y - a.y) * (b.y - a.y) <= dist2(a, b),
{
    let dx = b.x - a.x;
    let dy = b.y - a.y;
    assert(dx * dx == (-dx) * (-dx) && dy * dy == (-dy) * (-dy)) by (nonlinear_arith);
    assert(dx * dx >= 0 && (dx != 0 ==> dx * dx > 0)) by (nonlinear_arith);
    assert(dy * dy >= 0 && (dy != 0 ==> dy * dy > 0)) by (nonlinear_arith);
}

/// Between storable points the squared distance is below 2^83.
pub proof fn lemma_dist2_bound(a: Vec2, b: Vec2)
    requires
        a.in_range(),
        b.in_range(),
    ensures
        0 <= dist2(a, b) <= 0x8_0000_0000_0000_0000_0000,
        0 <= (b.x - a.x) * (b.x - a.x) <= 0x4_0000_0000_0000_0000_0000,
        0 <= (b.y - a.y) * (b.y - a.y) <= 0x4_0000_0000_0000_0000_0000,
{
    let dx = b.x - a.x;
    let dy = b.y - a.y;
    assert(0 <= dx * dx <= 0x4_0000_0000_0000_0000_0000) by (nonlinear_arith)
        requires
            -0x200_0000_0000 <= dx <= 0x200_0000_0000,
    ;
    assert(0 <= dy * dy <= 0x4_0000_0000_0000_0000_0000) by (nonlinear_arith)
        requires
            -0x200_0000_0000 <= dy <= 0x200_0000_0000,
    ;
}

impl Vec2 {
    /// Both coordinates may be stored.
    pub open spec fn in_range(self) -> bool {
        in_range(self.x as int) && in_range(self.y as int)
    }

    /// The vector with the given raw coordinates.
    pub fn new(x: i64, y: i64) -> (v: Vec2)
        ensures
            v == (Vec2 { x, y }),
    {
        Vec2 { x, y }
    }

    /// The origin.
    pub fn zero() -> (v: Vec2)
        ensures
            v == (Vec2 { x: 0, y: 0 }),
    {
        Vec2 { x: 0, y: 0 }
    }

    /// Squared distance to `other`.
    pub fn distance_squared(&self, other: &Vec2) -> (d: u128)
        requires
            self.in_range(),
            other.in_range(),
        ensures
            d == dist2(*self, *other),
    {
        proof {
            lemma_dist2_bound(*self, *other);
        }
        let dx: i128 = other.x as i128 - self.x as i128;
        let dy: i128 = other.y as i128 - self.y as i128;
        (dx * dx + dy * dy) as u128
    }
}

impl Force {
    /// No force.
    pub fn zero() -> (f: Force)
        ensures
            f == (Force { x: 0, y: 0 }),
    {
        Force { x: 0, y: 0 }
    }
}

} // verus!
