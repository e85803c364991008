//! What holds of every world and every tick.

use crate::culture::{
    built, lemma_built, lemma_pairwise_force_bound, pairwise_force_x, pairwise_force_y,
};
use crate::fixed::{lemma_trunc_div_le, magnitude, saturated, scaled, trunc_div, ONE};
use crate::kernel::lemma_kernel_zero;
use crate::particle::{
    lemma_rest, lemma_velocity_decays, lemma_wall_turns, next_velocity, snapped, Mouse,
    MouseButton,
};
use crate::sim::{storable_mouse, World};
use crate::sums::{lemma_sum_bound, lemma_sum_const, lemma_sum_le, lemma_sum_zero, sum_to};
use crate::vector::Vec2;
use vstd::prelude::*;

verus! {

impl World {
    /// Every coefficient of the mesh is zero.
    pub open spec fn mesh_is_zero(self) -> bool {
        forall|c: int, j: int|
            0 <= c < self.conf.num_cultures && 0 <= j < self.conf.num_cultures
                ==> #[trigger] self.gravity_mesh@[c]@[j] == 0
    }

    /// The pointer exerts no force in the coming tick: no button is held, or,
    /// in a world that is not interactive, no cursor force is stored.
    pub open spec fn pointer_rests(self, mouse: Mouse) -> bool {
        if self.conf.is_interactive {
            mouse.button == MouseButton::Released
        } else {
            forall|c: int, k: int|
                0 <= c < self.conf.num_cultures && 0 <= k < self.conf.culture_size
                    ==> #[trigger] self.cursor_force_tensor@[c]@[k] == (Vec2 { x: 0, y: 0 })
        }
    }

    /// No coefficient in row `c` of the mesh is larger in magnitude than `g`.
    pub open spec fn row_within(self, c: int, g: int) -> bool {
        forall|j: int|
            0 <= j < self.conf.num_cultures ==> magnitude(
                #[trigger] self.gravity_mesh@[c]@[j] as int,
            ) <= g
    }

    /// The move of the coming tick leaves particle `k` of culture `c` between
    /// the walls: from where the walls put it, its new velocity does not
    /// carry it across one.
    pub open spec fn keeps_inside(self, c: int, k: int, tau: int, mouse: Mouse) -> bool {
        let p = self.particle(c, k);
        let f = self.tick_force(c, k, mouse);
        let size = self.conf.bound.end;
        let d = self.conf.damping as int;
        let t = saturated(tau);
        &&& 0 <= snapped(p.pos.x as int, size.x as int) + scaled(
            next_velocity(p.pos.x as int, p.vel.x as int, f.x as int, d, size.x as int),
            t,
        ) <= size.x
        &&& 0 <= snapped(p.pos.y as int, size.y as int) + scaled(
            next_velocity(p.pos.y as int, p.vel.y as int, f.y as int, d, size.y as int),
            t,
        ) <= size.y
    }
}

/// With a mesh of zeros, no particle feels a force from the others, however
/// the force is computed.
pub proof fn lemma_zero_mesh_no_force(w: World, pairwise: bool, c: int, k: int)
    requires
        w.wf(),
        w.mesh_is_zero(),
        0 <= c < w.conf.num_cultures,
        0 <= k < w.conf.culture_size,
    ensures
        w.force_by(pairwise, c, k) == (Vec2 { x: 0, y: 0 }),
{
    let n = w.cultures@.len();
    let p = w.particle(c, k).pos;
    let aoe2 = w.conf.aoe2 as int;
    let theta = w.conf.theta as int;
    let tx = |j: int|
        built(w.conf.bound, w.cultures@[j].particles@).force_x(
            w.particle(c, k).pos,
            w.coefficient(c, j),
            w.conf.aoe2 as int,
            w.conf.theta as int,
        );
    let ty = |j: int|
        built(w.conf.bound, w.cultures@[j].particles@).force_y(
            w.particle(c, k).pos,
            w.coefficient(c, j),
            w.conf.aoe2 as int,
            w.conf.theta as int,
        );
    let px = |j: int|
        pairwise_force_x(
            w.cultures@[j].particles@,
            w.particle(c, k).pos,
            w.coefficient(c, j),
            w.conf.aoe2 as int,
        );
    let py = |j: int|
        pairwise_force_y(
            w.cultures@[j].particles@,
            w.particle(c, k).pos,
            w.coefficient(c, j),
            w.conf.aoe2 as int,
        );
    assert forall|j: int| 0 <= j < n implies #[trigger] tx(j) == 0 by {
        assert(w.gravity_mesh@[c]@[j] == 0);
        let pts = crate::query::flat(
            built(w.conf.bound, w.cultures@[j].particles@).points_for(p, aoe2, theta),
        );
        assert forall|i: int| 0 <= i < pts.len() implies #[trigger] crate::kernel::kernel_x(
            p,
            pts[i].pos,
            pts[i].mass as int,
            0,
            aoe2,
        ) == 0 by {
            lemma_kernel_zero(p, pts[i].pos, pts[i].mass as int, 0, aoe2);
        }
        lemma_sum_zero(
            pts.len(),
            |i: int| crate::kernel::kernel_x(p, pts[i].pos, pts[i].mass as int, 0, aoe2),
        );
    }
    assert forall|j: int| 0 <= j < n implies #[trigger] ty(j) == 0 by {
        assert(w.gravity_mesh@[c]@[j] == 0);
        let pts = crate::query::flat(
            built(w.conf.bound, w.cultures@[j].particles@).points_for(p, aoe2, theta),
        );
        assert forall|i: int| 0 <= i < pts.len() implies #[trigger] crate::kernel::kernel_y(
            p,
            pts[i].pos,
            pts[i].mass as int,
            0,
            aoe2,
        ) == 0 by {
            lemma_kernel_zero(p, pts[i].pos, pts[i].mass as int, 0, aoe2);
        }
        lemma_sum_zero(
            pts.len(),
            |i: int| crate::kernel::kernel_y(p, pts[i].pos, pts[i].mass as int, 0, aoe2),
        );
    }
    assert forall|j: int| 0 <= j < n implies #[trigger] px(j) == 0 by {
        assert(w.gravity_mesh@[c]@[j] == 0);
        let ps = w.cultures@[j].particles@;
        assert forall|i: int| 0 <= i < ps.len() implies #[trigger] crate::kernel::kernel_x(
            p,
            ps[i].pos,
            1,
            0,
            aoe2,
        ) == 0 by {
            lemma_kernel_zero(p, ps[i].pos, 1, 0, aoe2);
        }
        lemma_sum_zero(ps.len(), |i: int| crate::kernel::kernel_x(p, ps[i].pos, 1, 0, aoe2));
    }
    assert forall|j: int| 0 <= j < n implies #[trigger] py(j) == 0 by {
        assert(w.gravity_mesh@[c]@[j] == 0);
        let ps = w.cultures@[j].particles@;
        assert forall|i: int| 0 <= i < ps.len() implies #[trigger] crate::kernel::kernel_y(
            p,
            ps[i].pos,
            1,
            0,
            aoe2,
        ) == 0 by {
            lemma_kernel_zero(p, ps[i].pos, 1, 0, aoe2);
        }
        lemma_sum_zero(ps.len(), |i: int| crate::kernel::kernel_y(p, ps[i].pos, 1, 0, aoe2));
    }
    lemma_sum_zero(n, tx);
    lemma_sum_zero(n, ty);
    lemma_sum_zero(n, px);
    lemma_sum_zero(n, py);
    assert(trunc_div(0, n as int) == 0) by {
        crate::fixed::lemma_trunc_div_small(0, n as int);
    }
}

/// With a mesh of zeros and a pointer at rest, no particle feels any force in
/// the coming tick.
pub proof fn lemma_no_force(w: World, mouse: Mouse, c: int, k: int)
    requires
        w.wf(),
        w.mesh_is_zero(),
        w.pointer_rests(mouse),
        0 <= c < w.conf.num_cultures,
        0 <= k < w.conf.culture_size,
    ensures
        w.tick_force(c, k, mouse) == (Vec2 { x: 0, y: 0 }),
{
    lemma_zero_mesh_no_force(w, w.conf.gpu, c, k);
    if w.conf.is_interactive {
        let m = storable_mouse(mouse);
        lemma_kernel_zero(w.particle(c, k).pos, m.pos, 1, 0, w.conf.cursor_aoe2 as int);
    }
}

/// A particle that the coming tick does not carry across a wall lies within
/// the closed world rectangle after it.
pub proof fn lemma_tick_stays_inside(w: World, c: int, k: int, tau: int, mouse: Mouse)
    requires
        w.wf(),
        0 <= c < w.conf.num_cultures,
        0 <= k < w.conf.culture_size,
        w.keeps_inside(c, k, tau, mouse),
    ensures
        w.conf.bound.has(w.after_tick(c, k, tau, mouse).pos),
{
}

/// A particle on or beyond a wall moves, in a tick of a length that is not
/// negative, with a velocity that does not point out of the world, and is
/// afterwards not beyond that wall.
pub proof fn lemma_tick_turns_at_wall(w: World, c: int, k: int, tau: int, mouse: Mouse)
    requires
        w.wf(),
        0 <= c < w.conf.num_cultures,
        0 <= k < w.conf.culture_size,
        tau >= 0,
    ensures
        ({
            let before = w.particle(c, k);
            let after = w.after_tick(c, k, tau, mouse);
            let size = w.conf.bound.end;
            &&& before.pos.x <= 0 ==> after.vel.x >= 0 && after.pos.x >= 0
            &&& before.pos.x >= size.x ==> after.vel.x <= 0 && after.pos.x <= size.x
            &&& before.pos.y <= 0 ==> after.vel.y >= 0 && after.pos.y >= 0
            &&& before.pos.y >= size.y ==> after.vel.y <= 0 && after.pos.y <= size.y
        }),
{
    let p = w.particle(c, k);
    let f = w.tick_force(c, k, mouse);
    let size = w.conf.bound.end;
    let d = w.conf.damping as int;
    let t = saturated(tau);
    lemma_wall_turns(p.pos.x as int, p.vel.x as int, f.x as int, d, t, size.x as int);
    lemma_wall_turns(p.pos.y as int, p.vel.y as int, f.y as int, d, t, size.y as int);
}

/// With a mesh of zeros, a pointer at rest and a damping factor strictly
/// between zero and one, a tick never raises the speed of a particle along
/// an axis, and lowers it unless the particle rests along that axis.
pub proof fn lemma_tick_slows(w: World, c: int, k: int, tau: int, mouse: Mouse)
    requires
        w.wf(),
        w.mesh_is_zero(),
        w.pointer_rests(mouse),
        0 < w.conf.damping < ONE,
        0 <= c < w.conf.num_cultures,
        0 <= k < w.conf.culture_size,
    ensures
        ({
            let before = w.particle(c, k).vel;
            let after = w.after_tick(c, k, tau, mouse).vel;
            &&& magnitude(after.x as int) <= magnitude(before.x as int)
            &&& magnitude(after.y as int) <= magnitude(before.y as int)
            &&& before.x != 0 ==> magnitude(after.x as int) < magnitude(before.x as int)
            &&& before.y != 0 ==> magnitude(after.y as int) < magnitude(before.y as int)
        }),
{
    lemma_no_force(w, mouse, c, k);
    let p = w.particle(c, k);
    assert(p.wf()) by {
        assert(crate::culture::all_storable(w.cultures@[c].particles@));
    }
    let size = w.conf.bound.end;
    lemma_velocity_decays(p.pos.x as int, p.vel.x as int, w.conf.damping as int, size.x as int);
    lemma_velocity_decays(p.pos.y as int, p.vel.y as int, w.conf.damping as int, size.y as int);
}

/// With a mesh of zeros and a pointer at rest, a particle that rests inside
/// the world rectangle is not moved by a tick.
pub proof fn lemma_tick_fixed_point(w: World, c: int, k: int, tau: int, mouse: Mouse)
    requires
        w.wf(),
        w.mesh_is_zero(),
        w.pointer_rests(mouse),
        0 <= c < w.conf.num_cultures,
        0 <= k < w.conf.culture_size,
        w.particle(c, k).vel == (Vec2 { x: 0, y: 0 }),
        w.conf.bound.has(w.particle(c, k).pos),
    ensures
        w.after_tick(c, k, tau, mouse) == w.particle(c, k),
{
    lemma_no_force(w, mouse, c, k);
    lemma_rest(w.particle(c, k), w.conf.damping as int, saturated(tau), w.conf.bound.end);
}

/// If no coefficient in row `c` of the mesh exceeds `g` in magnitude, the
/// force on a particle of culture `c` from all others exceeds, coordinate by
/// coordinate, neither `g` times the size of a culture nor the storable range.
pub proof fn lemma_force_bounded(w: World, pairwise: bool, c: int, k: int, g: int)
    requires
        w.wf(),
        0 <= c < w.conf.num_cultures,
        0 <= k < w.conf.culture_size,
        w.row_within(c, g),
    ensures
        magnitude(w.force_by(pairwise, c, k).x as int) <= g * w.conf.culture_size,
        magnitude(w.force_by(pairwise, c, k).y as int) <= g * w.conf.culture_size,
{
    let n = w.cultures@.len();
    let s = w.conf.culture_size as int;
    let p = w.particle(c, k).pos;
    let aoe2 = w.conf.aoe2 as int;
    let theta = w.conf.theta as int;
    assert(g >= 0) by {
        assert(magnitude(w.gravity_mesh@[c]@[0] as int) <= g);
    }
    assert(g * s >= 0) by (nonlinear_arith)
        requires
            g >= 0,
            s >= 0,
    ;
    let bound = |j: int| g * s;
    let tx = |j: int|
        built(w.conf.bound, w.cultures@[j].particles@).force_x(
            w.particle(c, k).pos,
            w.coefficient(c, j),
            w.conf.aoe2 as int,
            w.conf.theta as int,
        );
    let ty = |j: int|
        built(w.conf.bound, w.cultures@[j].particles@).force_y(
            w.particle(c, k).pos,
            w.coefficient(c, j),
            w.conf.aoe2 as int,
            w.conf.theta as int,
        );
    let px = |j: int|
        pairwise_force_x(
            w.cultures@[j].particles@,
            w.particle(c, k).pos,
            w.coefficient(c, j),
            w.conf.aoe2 as int,
        );
    let py = |j: int|
        pairwise_force_y(
            w.cultures@[j].particles@,
            w.particle(c, k).pos,
            w.coefficient(c, j),
            w.conf.aoe2 as int,
        );
    assert forall|j: int| 0 <= j < n implies magnitude(#[trigger] tx(j)) <= bound(j) && magnitude(
        ty(j),
    ) <= bound(j) && magnitude(px(j)) <= bound(j) && magnitude(py(j)) <= bound(j) by {
        let ps = w.cultures@[j].particles@;
        let gj = w.coefficient(c, j);
        assert(magnitude(w.gravity_mesh@[c]@[j] as int) <= g);
        assert(ps.len() == s);
        crate::sim::lemma_crowd(n as int, s, j);
        lemma_built(w.conf.bound, ps);
        let tree = built(w.conf.bound, ps);
        tree.lemma_force_bound(p, gj, aoe2, theta);
        lemma_pairwise_force_bound(ps, p, gj, aoe2);
        let (a, m) = (magnitude(gj), tree.mass() as int);
        assert(a * m <= g * s && a * s <= g * s) by (nonlinear_arith)
            requires
                0 <= a <= g,
                0 <= m <= s,
        ;
    }
    assert forall|j: int| 0 <= j < n implies magnitude(#[trigger] ty(j)) <= bound(j) by {
        assert(magnitude(tx(j)) <= bound(j));
    }
    assert forall|j: int| 0 <= j < n implies magnitude(#[trigger] px(j)) <= bound(j) by {
        assert(magnitude(tx(j)) <= bound(j));
    }
    assert forall|j: int| 0 <= j < n implies magnitude(#[trigger] py(j)) <= bound(j) by {
        assert(magnitude(tx(j)) <= bound(j));
    }
    lemma_sum_bound(n, tx, bound);
    lemma_sum_bound(n, ty, bound);
    lemma_sum_bound(n, px, bound);
    lemma_sum_bound(n, py, bound);
    lemma_sum_const(n, bound, g * s);
    lemma_trunc_div_le(w.tree_sum_x(c, k), n as int, g * s);
    lemma_trunc_div_le(w.tree_sum_y(c, k), n as int, g * s);
    lemma_trunc_div_le(w.pair_sum_x(c, k), n as int, g * s);
    lemma_trunc_div_le(w.pair_sum_y(c, k), n as int, g * s);
}

impl World {
    /// No coefficient of the mesh is larger in magnitude than `g`.
    pub open spec fn mesh_within(self, g: int) -> bool {
        forall|c: int| 0 <= c < self.conf.num_cultures ==> #[trigger] self.row_within(c, g)
    }

    /// The sum, over all particles, of the magnitudes of the x coordinates of
    /// the forces on them.
    pub open spec fn total_force_x(self, pairwise: bool) -> int {
        sum_to(
            self.conf.num_cultures as nat,
            |c: int|
                sum_to(
                    self.conf.culture_size as nat,
                    |k: int| magnitude(self.force_by(pairwise, c, k).x as int),
                ),
        )
    }

    /// The sum, over all particles, of the magnitudes of the y coordinates of
    /// the forces on them.
    pub open spec fn total_force_y(self, pairwise: bool) -> int {
        sum_to(
            self.conf.num_cultures as nat,
            |c: int|
                sum_to(
                    self.conf.culture_size as nat,
                    |k: int| magnitude(self.force_by(pairwise, c, k).y as int),
                ),
        )
    }
}

/// If no coefficient of the mesh exceeds `g` in magnitude, the forces on all
/// particles together are, along each axis, at most the number of particles
/// times `g` times the size of a culture. In a world of cultures of one
/// particle that is the number of particles times `g`.
pub proof fn lemma_total_force_bounded(w: World, pairwise: bool, g: int)
    requires
        w.wf(),
        w.mesh_within(g),
    ensures
        w.total_force_x(pairwise) <= w.conf.num_cultures * (w.conf.culture_size * (g
            * w.conf.culture_size)),
        w.total_force_y(pairwise) <= w.conf.num_cultures * (w.conf.culture_size * (g
            * w.conf.culture_size)),
        w.conf.culture_size == 1 ==> w.total_force_x(pairwise) <= w.conf.num_cultures
            * w.conf.culture_size * g && w.total_force_y(pairwise) <= w.conf.num_cultures
            * w.conf.culture_size * g,
{
    let n = w.conf.num_cultures as nat;
    let s = w.conf.culture_size as nat;
    let each = g * s;
    let row_x = |c: int| sum_to(s, |k: int| magnitude(w.force_by(pairwise, c, k).x as int));
    let row_y = |c: int| sum_to(s, |k: int| magnitude(w.force_by(pairwise, c, k).y as int));
    let row_bound = |c: int| s * each;
    assert forall|c: int| 0 <= c < n implies #[trigger] row_x(c) <= row_bound(c) by {
        let fx = |k: int| magnitude(w.force_by(pairwise, c, k).x as int);
        let fb = |k: int| each;
        assert(w.row_within(c, g));
        assert forall|k: int| 0 <= k < s implies #[trigger] fx(k) <= fb(k) by {
            lemma_force_bounded(w, pairwise, c, k, g);
        }
        lemma_sum_le(s, fx, fb);
        lemma_sum_const(s, fb, each);
    }
    assert forall|c: int| 0 <= c < n implies #[trigger] row_y(c) <= row_bound(c) by {
        let fy = |k: int| magnitude(w.force_by(pairwise, c, k).y as int);
        let fb = |k: int| each;
        assert(w.row_within(c, g));
        assert forall|k: int| 0 <= k < s implies #[trigger] fy(k) <= fb(k) by {
            lemma_force_bounded(w, pairwise, c, k, g);
        }
        lemma_sum_le(s, fy, fb);
        lemma_sum_const(s, fb, each);
    }
    lemma_sum_le(n, row_x, row_bound);
    lemma_sum_le(n, row_y, row_bound);
    lemma_sum_const(n, row_bound, s * each);
    if s == 1 {
        assert(n * (s * (g * s)) == n * s * g) by (nonlinear_arith)
            requires
                s == 1,
        ;
    }
}

} // verus!
