//! The force that one weighted point exerts on a particle.
//!
//! Within the area of effect the force has the direction from the particle to
//! the point and the magnitude of the coefficient times the mass of the point;
//! it does not fall off with distance. At distance zero and beyond the area of
//! effect there is no force.

use crate::fixed::{
    div_trunc, in_range, isqrt, lemma_isqrt_bounds, lemma_isqrt_exists, lemma_trunc_div_bounds,
    lemma_trunc_div_le, magnitude, sqrt_floor, trunc_div, LIMIT, ONE,
};
use crate::vector::{dist2, lemma_dist2, Force, Vec2};
use vstd::prelude::*;

verus! {

/// A squared distance `d2` (in squared raw units) is not zero and not beyond
/// the area of effect, whose squared radius `aoe2` is a raw fixed-point value.
pub open spec fn acts(d2: int, aoe2: int) -> bool {
    0 < d2 <= aoe2 * ONE
}

/// One coordinate of a vector of length `g * m` along a displacement whose
/// coordinate is `delta` and whose squared length is `d2`.
pub open spec fn pull(delta: int, d2: int, g: int, m: int) -> int {
    trunc_div(delta * g * m, isqrt(d2))
}

/// The x coordinate of the force on a particle at `p` from mass `m` at `s`
/// under the coefficient `g`.
pub open spec fn kernel_x(p: Vec2, s: Vec2, m: int, g: int, aoe2: int) -> int {
    if acts(dist2(p, s), aoe2) {
        pull(s.x - p.x, dist2(p, s), g, m)
    } else {
        0
    }
}

/// The y coordinate of the force on a particle at `p` from mass `m` at `s`
/// under the coefficient `g`.
pub open spec fn kernel_y(p: Vec2, s: Vec2, m: int, g: int, aoe2: int) -> int {
    if acts(dist2(p, s), aoe2) {
        pull(s.y - p.y, dist2(p, s), g, m)
    } else {
        0
    }
}

/// A pull is no larger than the coefficient times the mass.
pub proof fn lemma_pull_bound(delta: int, d2: int, g: int, m: int)
    requires
        d2 > 0,
        m >= 0,
        delta * delta <= d2,
    ensures
        magnitude(pull(delta, d2, g, m)) <= magnitude(g) * m,
{
    lemma_isqrt_exists(d2);
    let r = isqrt(d2);
    lemma_isqrt_bounds(d2, r, delta);
    let a = magnitude(delta);
    let b = magnitude(g);
    assert(magnitude(delta * g * m) == a * b * m) by (nonlinear_arith)
        requires
            a == magnitude(delta),
            b == magnitude(g),
            m >= 0,
    ;
    assert(a * b * m <= (b * m) * r && b * m >= 0) by (nonlinear_arith)
        requires
            0 <= a <= r,
            b >= 0,
            m >= 0,
    ;
    lemma_trunc_div_le(delta * g * m, r, b * m);
}

/// The force is no larger, coordinate by coordinate, than the coefficient
/// times the mass.
pub proof fn lemma_kernel_bound(p: Vec2, s: Vec2, m: int, g: int, aoe2: int)
    requires
        m >= 0,
    ensures
        magnitude(kernel_x(p, s, m, g, aoe2)) <= magnitude(g) * m,
        magnitude(kernel_y(p, s, m, g, aoe2)) <= magnitude(g) * m,
{
    lemma_dist2(p, s);
    assert(magnitude(g) * m >= 0) by (nonlinear_arith)
        requires
            magnitude(g) >= 0,
            m >= 0,
    ;
    if acts(dist2(p, s), aoe2) {
        lemma_pull_bound(s.x - p.x, dist2(p, s), g, m);
        lemma_pull_bound(s.y - p.y, dist2(p, s), g, m);
    }
}

/// Without a coefficient, or without mass, there is no force.
pub proof fn lemma_kernel_zero(p: Vec2, s: Vec2, m: int, g: int, aoe2: int)
    requires
        g == 0 || m == 0,
    ensures
        kernel_x(p, s, m, g, aoe2) == 0,
        kernel_y(p, s, m, g, aoe2) == 0,
{
    let dx = s.x - p.x;
    let dy = s.y - p.y;
    assert(dx * g * m == 0 && dy * g * m == 0) by (nonlinear_arith)
        requires
            g == 0 || m == 0,
    ;
    if acts(dist2(p, s), aoe2) {
        lemma_isqrt_exists(dist2(p, s));
    }
}

/// Two points pull at each other with opposite forces.
pub proof fn lemma_kernel_opposite(p: Vec2, s: Vec2, m: int, g: int, aoe2: int)
    ensures
        kernel_x(s, p, m, g, aoe2) == -kernel_x(p, s, m, g, aoe2),
        kernel_y(s, p, m, g, aoe2) == -kernel_y(p, s, m, g, aoe2),
{
    lemma_dist2(p, s);
    if acts(dist2(p, s), aoe2) {
        let r = isqrt(dist2(p, s));
        lemma_isqrt_exists(dist2(p, s));
        let dx = s.x - p.x;
        let dy = s.y - p.y;
        assert((-dx) * g * m == -(dx * g * m) && (-dy) * g * m == -(dy * g * m))
            by (nonlinear_arith);
        lemma_trunc_div_bounds(dx * g * m, r);
        lemma_trunc_div_bounds(dy * g * m, r);
    }
}

/// The opposite coefficient gives the opposite force.
pub proof fn lemma_kernel_negated(p: Vec2, s: Vec2, m: int, g: int, aoe2: int)
    ensures
        kernel_x(p, s, m, -g, aoe2) == -kernel_x(p, s, m, g, aoe2),
        kernel_y(p, s, m, -g, aoe2) == -kernel_y(p, s, m, g, aoe2),
{
    if acts(dist2(p, s), aoe2) {
        let r = isqrt(dist2(p, s));
        lemma_isqrt_exists(dist2(p, s));
        let dx = s.x - p.x;
        let dy = s.y - p.y;
        assert(dx * (-g) * m == -(dx * g * m) && dy * (-g) * m == -(dy * g * m))
            by (nonlinear_arith);
        lemma_trunc_div_bounds(dx * g * m, r);
        lemma_trunc_div_bounds(dy * g * m, r);
    }
}

/// Whether a squared distance is within the squared radius `aoe2`.
pub fn within(d2: u128, aoe2: i64) -> (b: bool)
    ensures
        b == (d2 <= aoe2 * ONE),
{
    if aoe2 < 0 {
        false
    } else {
        assert(0 <= aoe2 * ONE <= 0x7fff_ffff_ffff_ffff * 65536) by (nonlinear_arith)
            requires
                0 <= aoe2 <= 0x7fff_ffff_ffff_ffff,
                ONE == 65536,
        ;
        d2 <= (aoe2 as u128) * (ONE as u128)
    }
}

/// The force on a particle at `p` from mass `m` at `s` under the coefficient `g`.
pub fn kernel(p: &Vec2, s: &Vec2, m: u32, g: i64, aoe2: i64) -> (f: Force)
    requires
        p.in_range(),
        s.in_range(),
        in_range(g as int),
    ensures
        f.x == kernel_x(*p, *s, m as int, g as int, aoe2 as int),
        f.y == kernel_y(*p, *s, m as int, g as int, aoe2 as int),
{
    let d2: u128 = p.distance_squared(s);
    if d2 == 0 || !within(d2, aoe2) {
        return Force { x: 0, y: 0 };
    }
    let d: u64 = sqrt_floor(d2);
    let dx: i128 = s.x as i128 - p.x as i128;
    let dy: i128 = s.y as i128 - p.y as i128;
    proof {
        lemma_isqrt_exists(d2 as int);
        let bound: int = 0x200_0000_0000 * LIMIT;
        assert(-bound <= dx * g <= bound && -bound <= dy * g <= bound) by (nonlinear_arith)
            requires
                -0x200_0000_0000 <= dx <= 0x200_0000_0000,
                -0x200_0000_0000 <= dy <= 0x200_0000_0000,
                -LIMIT <= g <= LIMIT,
                bound == 0x200_0000_0000 * LIMIT,
        ;
        let (a, b) = (dx * g, dy * g);
        assert(-(bound * 0x1_0000_0000) <= a * m <= bound * 0x1_0000_0000 && -(bound
            * 0x1_0000_0000) <= b * m <= bound * 0x1_0000_0000) by (nonlinear_arith)
            requires
                -bound <= a <= bound,
                -bound <= b <= bound,
                0 <= m <= 0xffff_ffff,
                bound >= 0,
        ;
    }
    let nx: i128 = dx * (g as i128) * (m as i128);
    let ny: i128 = dy * (g as i128) * (m as i128);
    Force { x: div_trunc(nx, d as i128), y: div_trunc(ny, d as i128) }
}

} // verus!
