//! Particles: the forces on one particle and its motion over one tick.

use crate::fixed::{
    in_range, lemma_trunc_div_bounds, magnitude, saturate, saturated, scaled, LIMIT, ONE,
};
use crate::kernel::{kernel, kernel_x, kernel_y};
use crate::qt::WeightedPoint;
use crate::util::random_below;
use crate::vector::{Force, Vec2};
use vstd::prelude::*;

verus! {

/// What the pointer does during a tick.
#[derive(Clone, Copy, Debug, PartialEq, Eq, Structural)]
pub enum MouseButton {
    /// No button is held.
    Released,
    /// The left button is held: particles near the pointer are pushed away.
    LeftDown,
    /// The right button is held: particles near the pointer are drawn in.
    RightDown,
}

/// The pointer: where it is, in world coordinates, and what it does.
#[derive(Clone, Copy, Debug, PartialEq, Eq, Structural)]
pub struct Mouse {
    pub button: MouseButton,
    pub pos: Vec2,
}

/// A particle: where it is and how fast it moves.
#[derive(Clone, Copy, Debug, PartialEq, Eq, Structural)]
pub struct Particle {
    pub pos: Vec2,
    pub vel: Vec2,
}

/// The coefficient with which the pointer acts: the cursor force, repelling
/// for the left button and attracting for the right one.
pub open spec fn cursor_coefficient(button: MouseButton, cforce: int) -> int {
    match button {
        MouseButton::Released => 0,
        MouseButton::LeftDown => -cforce,
        MouseButton::RightDown => cforce,
    }
}

/// A velocity after the force `f` is added and the damping factor applied.
pub open spec fn damped(v: int, f: int, damping: int) -> int {
    saturated(scaled(v + f, damping))
}

/// A velocity after the walls at `0` and `wall` have had their say: on or
/// beyond a wall it points back into the world.
pub open spec fn reflected(pos: int, v: int, wall: int) -> int {
    if pos <= 0 {
        magnitude(v)
    } else if pos >= wall {
        -magnitude(v)
    } else {
        v
    }
}

/// A coordinate after the walls at `0` and `wall` have had their say: on or
/// beyond a wall it is put onto the wall.
pub open spec fn snapped(pos: int, wall: int) -> int {
    if pos <= 0 {
        0
    } else if pos >= wall {
        wall
    } else {
        pos
    }
}

/// The velocity along one axis after a tick.
pub open spec fn next_velocity(pos: int, v: int, f: int, damping: int, wall: int) -> int {
    reflected(pos, damped(v, f, damping), wall)
}

/// The coordinate along one axis after a tick of length `tau`: the snapped
/// coordinate, moved by the new velocity.
pub open spec fn next_position(pos: int, v: int, f: int, damping: int, tau: int, wall: int) -> int {
    saturated(snapped(pos, wall) + scaled(next_velocity(pos, v, f, damping, wall), tau))
}

/// The particle after a tick under the total force `f`, in a world from the
/// origin to `size`.
pub open spec fn stepped(p: Particle, f: Vec2, damping: int, tau: int, size: Vec2) -> Particle {
    Particle {
        pos: Vec2 {
            x: next_position(
                p.pos.x as int,
                p.vel.x as int,
                f.x as int,
                damping,
                tau,
                size.x as int,
            ) as i64,
            y: next_position(
                p.pos.y as int,
                p.vel.y as int,
                f.y as int,
                damping,
                tau,
                size.y as int,
            ) as i64,
        },
        vel: Vec2 {
            x: next_velocity(p.pos.x as int, p.vel.x as int, f.x as int, damping, size.x as int) as i64,
            y: next_velocity(p.pos.y as int, p.vel.y as int, f.y as int, damping, size.y as int) as i64,
        },
    }
}

/// Without a force, a damping factor strictly between zero and one never
/// raises the speed along an axis, and lowers it unless the particle rests.
pub proof fn lemma_velocity_decays(pos: int, v: int, damping: int, wall: int)
    requires
        in_range(v),
        0 < damping < ONE,
    ensures
        magnitude(next_velocity(pos, v, 0, damping, wall)) <= magnitude(v),
        v != 0 ==> magnitude(next_velocity(pos, v, 0, damping, wall)) < magnitude(v),
        v == 0 ==> next_velocity(pos, v, 0, damping, wall) == 0,
{
    let a = magnitude(v);
    lemma_trunc_div_bounds(v * damping, ONE as int);
    assert(magnitude(v * damping) == a * damping) by (nonlinear_arith)
        requires
            a == magnitude(v),
            damping > 0,
    ;
    assert((a * damping) / (ONE as int) <= a && (a > 0 ==> (a * damping) / (ONE as int) < a))
        by (nonlinear_arith)
        requires
            a >= 0,
            0 < damping < ONE,
            ONE == 65536,
    ;
}

/// Without a force and at rest, a particle inside the world stays where it is.
pub proof fn lemma_rest(p: Particle, damping: int, tau: int, size: Vec2)
    requires
        p.vel == (Vec2 { x: 0, y: 0 }),
        0 <= p.pos.x <= size.x,
        0 <= p.pos.y <= size.y,
        size.in_range(),
    ensures
        stepped(p, Vec2 { x: 0, y: 0 }, damping, tau, size) == p,
{
    assert(0 * damping == 0);
    assert(0 * tau == 0);
    assert(scaled(0, damping) == 0);
    assert(scaled(0, tau) == 0);
}

/// On or beyond the low wall the new velocity points into the world and the
/// new coordinate is not below the wall; likewise at the high wall.
pub proof fn lemma_wall_turns(pos: int, v: int, f: int, damping: int, tau: int, wall: int)
    requires
        tau >= 0,
        0 <= wall <= LIMIT,
    ensures
        pos <= 0 ==> next_velocity(pos, v, f, damping, wall) >= 0 && next_position(
            pos,
            v,
            f,
            damping,
            tau,
            wall,
        ) >= 0,
        0 < pos && pos >= wall ==> next_velocity(pos, v, f, damping, wall) <= 0 && next_position(
            pos,
            v,
            f,
            damping,
            tau,
            wall,
        ) <= wall,
{
    let v1 = next_velocity(pos, v, f, damping, wall);
    lemma_trunc_div_bounds(v1 * tau, ONE as int);
    assert(v1 >= 0 ==> v1 * tau >= 0) by (nonlinear_arith)
        requires
            tau >= 0,
    ;
    assert(v1 <= 0 ==> v1 * tau <= 0) by (nonlinear_arith)
        requires
            tau >= 0,
    ;
}

impl Particle {
    /// Position and velocity are storable.
    pub open spec fn wf(self) -> bool {
        self.pos.in_range() && self.vel.in_range()
    }

    /// A particle at rest at a random whole-unit position of the world from
    /// the origin to `size`.
    pub fn new(size: Vec2) -> (p: Particle)
        requires
            size.in_range(),
            size.x >= ONE,
            size.y >= ONE,
        ensures
            p.vel == (Vec2 { x: 0, y: 0 }),
            0 <= p.pos.x < size.x,
            0 <= p.pos.y < size.y,
            p.pos.x % ONE == 0,
            p.pos.y % ONE == 0,
            p.wf(),
    {
        let x: i64 = random_coordinate(size.x);
        let y: i64 = random_coordinate(size.y);
        Particle::at(Vec2 { x, y })
    }

    /// The particle at rest at `pos`.
    pub fn at(pos: Vec2) -> (p: Particle)
        ensures
            p == (Particle { pos, vel: Vec2 { x: 0, y: 0 } }),
    {
        Particle { pos, vel: Vec2 { x: 0, y: 0 } }
    }

    /// Where the particle is.
    pub fn point(&self) -> (p: Vec2)
        ensures
            p == self.pos,
    {
        self.pos
    }

    /// The force that `other` exerts on this particle under the coefficient `g`.
    pub fn _naive_force(&self, other: &Particle, g: i64, aoe2: i64) -> (f: Force)
        requires
            self.pos.in_range(),
            other.pos.in_range(),
            in_range(g as int),
        ensures
            f.x == kernel_x(self.pos, other.pos, 1, g as int, aoe2 as int),
            f.y == kernel_y(self.pos, other.pos, 1, g as int, aoe2 as int),
    {
        kernel(&self.pos, &other.pos, 1, g, aoe2)
    }

    /// The force that a weighted point exerts on this particle under the
    /// coefficient `g`.
    pub fn force(&self, point: &WeightedPoint, g: i64, aoe2: i64) -> (f: Force)
        requires
            self.pos.in_range(),
            point.pos.in_range(),
            in_range(g as int),
        ensures
            f.x == kernel_x(self.pos, point.pos, point.mass as int, g as int, aoe2 as int),
            f.y == kernel_y(self.pos, point.pos, point.mass as int, g as int, aoe2 as int),
    {
        kernel(&self.pos, &point.pos, point.mass, g, aoe2)
    }

    /// The force of the pointer on this particle: of magnitude `cforce` within
    /// the squared radius `caoe2`, away from the pointer while the left button
    /// is held and toward it while the right one is.
    pub fn cursor_force(&self, mouse: &Mouse, caoe2: i64, cforce: i64) -> (f: Force)
        requires
            self.pos.in_range(),
            mouse.pos.in_range(),
            in_range(cforce as int),
        ensures
            f.x == kernel_x(
                self.pos,
                mouse.pos,
                1,
                cursor_coefficient(mouse.button, cforce as int),
                caoe2 as int,
            ),
            f.y == kernel_y(
                self.pos,
                mouse.pos,
                1,
                cursor_coefficient(mouse.button, cforce as int),
                caoe2 as int,
            ),
    {
        match mouse.button {
            MouseButton::LeftDown => kernel(&self.pos, &mouse.pos, 1, -cforce, caoe2),
            MouseButton::RightDown => kernel(&self.pos, &mouse.pos, 1, cforce, caoe2),
            MouseButton::Released => {
                proof {
                    crate::kernel::lemma_kernel_zero(self.pos, mouse.pos, 1, 0, caoe2 as int);
                }
                Force { x: 0, y: 0 }
            },
        }
    }

    /// Moves the particle through one tick of length `tau` under the total
    /// force `f`: the velocity takes up the force and is damped; on or beyond a
    /// wall it is turned inward and the particle is put onto the wall; then
    /// the particle moves by the new velocity.
    pub fn advance(&mut self, f: &Vec2, damping: i64, tau: i64, size: &Vec2)
        requires
            old(self).wf(),
            -2 * LIMIT <= f.x <= 2 * LIMIT,
            -2 * LIMIT <= f.y <= 2 * LIMIT,
            in_range(damping as int),
            in_range(tau as int),
            size.in_range(),
            0 <= size.x,
            0 <= size.y,
        ensures
            *final(self) == stepped(*old(self), *f, damping as int, tau as int, *size),
            final(self).wf(),
    {
        let (px, vx) = advance_axis(self.pos.x, self.vel.x, f.x, damping, tau, size.x);
        let (py, vy) = advance_axis(self.pos.y, self.vel.y, f.y, damping, tau, size.y);
        self.pos = Vec2 { x: px, y: py };
        self.vel = Vec2 { x: vx, y: vy };
    }
}

/// A random whole number of units that is not negative and below `extent`.
fn random_coordinate(extent: i64) -> (x: i64)
    requires
        ONE <= extent <= LIMIT,
    ensures
        0 <= x < extent,
        x % ONE == 0,
{
    let units: u32 = (extent / ONE) as u32;
    let pick: u32 = random_below(units);
    assert(pick * ONE < extent && (pick * ONE) % (ONE as int) == 0) by (nonlinear_arith)
        requires
            0 <= pick < extent / ONE,
            ONE == 65536,
    ;
    whole_units(pick)
}

/// One axis of `Particle::advance`: the new coordinate and the new velocity.
pub fn advance_axis(pos: i64, v: i64, f: i64, damping: i64, tau: i64, wall: i64) -> (r: (i64, i64))
    requires
        in_range(pos as int),
        in_range(v as int),
        -2 * LIMIT <= f <= 2 * LIMIT,
        in_range(damping as int),
        in_range(tau as int),
        0 <= wall <= LIMIT,
    ensures
        r.0 == next_position(
            pos as int,
            v as int,
            f as int,
            damping as int,
            tau as int,
            wall as int,
        ),
        r.1 == next_velocity(pos as int, v as int, f as int, damping as int, wall as int),
        in_range(r.0 as int),
        in_range(r.1 as int),
{
    let pushed: i128 = v as i128 + f as i128;
    assert(-(3 * LIMIT * LIMIT) <= pushed * damping <= 3 * LIMIT * LIMIT) by (nonlinear_arith)
        requires
            -3 * LIMIT <= pushed <= 3 * LIMIT,
            -LIMIT <= damping <= LIMIT,
            LIMIT == 0x100_0000_0000,
    ;
    let slowed: i64 = saturate(crate::fixed::div_trunc(pushed * (damping as i128), ONE as i128));
    let (turned, base): (i64, i64) = if pos <= 0 {
        (if slowed < 0 {
            -slowed
        } else {
            slowed
        }, 0)
    } else if pos >= wall {
        (if slowed < 0 {
            slowed
        } else {
            -slowed
        }, wall)
    } else {
        (slowed, pos)
    };
    assert(-(LIMIT * LIMIT) <= turned * tau <= LIMIT * LIMIT) by (nonlinear_arith)
        requires
            -LIMIT <= turned <= LIMIT,
            -LIMIT <= tau <= LIMIT,
            LIMIT == 0x100_0000_0000,
    ;
    let wide: i128 = (turned as i128) * (tau as i128);
    proof {
        lemma_trunc_div_bounds(wide as int, ONE as int);
    }
    let step: i128 = crate::fixed::div_trunc(wide, ONE as i128);
    (saturate(base as i128 + step), turned)
}

/// The raw coordinate of a whole number of units.
pub fn whole_units(units: u32) -> (x: i64)
    ensures
        x == units * ONE,
{
    (units as i64) * ONE
}

} // verus!
