//! When the Barnes-Hut approximation is exact: with an opening threshold of
//! zero, over trees in which no two particles were merged, and within reach
//! of everything, the forces of the quadtrees are those of the pairwise
//! computation.

use crate::culture::{built, grown, lemma_grown, pairwise_force_x, pairwise_force_y};
use crate::fixed::ONE;
use crate::kernel::{kernel_x, kernel_y};
use crate::particle::Particle;
use crate::qt::{QuadTree, Rect, WeightedPoint, MAX_DEPTH};
use crate::query::{lemma_points_force_concat, points_force_x, points_force_y};
use crate::sim::World;
use crate::sums::{lemma_sum_ext, sum_to};
use crate::vector::{dist2, Vec2};
use vstd::prelude::*;

verus! {

impl QuadTree {
    /// No leaf stands for more than one particle.
    pub open spec fn unmerged(self) -> bool
        decreases self,
    {
        match self {
            QuadTree::Internal { first, second, third, fourth, .. } => first.unmerged()
                && second.unmerged() && third.unmerged() && fourth.unmerged(),
            QuadTree::External { point, .. } => point.mass == 1,
            QuadTree::Empty { .. } => true,
        }
    }

    /// The x coordinate of the total force of the leaf points on a particle
    /// at `p`.
    pub open spec fn leaves_force_x(self, p: Vec2, g: int, aoe2: int) -> int {
        points_force_x(self.leaves(), p, g, aoe2)
    }

    /// The y coordinate of the total force of the leaf points on a particle
    /// at `p`.
    pub open spec fn leaves_force_y(self, p: Vec2, g: int, aoe2: int) -> int {
        points_force_y(self.leaves(), p, g, aoe2)
    }

    /// The force of the leaves of a divided node is the sum of the forces of
    /// the leaves of its children, that of a leaf is the force of its point,
    /// and an empty node has none.
    pub proof fn lemma_leaves_force(self, p: Vec2, g: int, aoe2: int)
        ensures
            self matches QuadTree::Internal { first, second, third, fourth, .. }
                ==> self.leaves_force_x(p, g, aoe2) == first.leaves_force_x(p, g, aoe2)
                + second.leaves_force_x(p, g, aoe2) + third.leaves_force_x(p, g, aoe2)
                + fourth.leaves_force_x(p, g, aoe2) && self.leaves_force_y(p, g, aoe2)
                == first.leaves_force_y(p, g, aoe2) + second.leaves_force_y(p, g, aoe2)
                + third.leaves_force_y(p, g, aoe2) + fourth.leaves_force_y(p, g, aoe2),
            self matches QuadTree::External { point, .. } ==> self.leaves_force_x(p, g, aoe2)
                == kernel_x(p, point.pos, point.mass as int, g, aoe2) && self.leaves_force_y(
                p,
                g,
                aoe2,
            ) == kernel_y(p, point.pos, point.mass as int, g, aoe2),
            self is Empty ==> self.leaves_force_x(p, g, aoe2) == 0 && self.leaves_force_y(
                p,
                g,
                aoe2,
            ) == 0,
    {
        match self {
            QuadTree::Internal { first, second, third, fourth, .. } => {
                let (a, b, c, d) = (
                    first.leaves(),
                    second.leaves(),
                    third.leaves(),
                    fourth.leaves(),
                );
                lemma_points_force_concat(a, b, p, g, aoe2);
                lemma_points_force_concat(a + b, c, p, g, aoe2);
                lemma_points_force_concat(a + b + c, d, p, g, aoe2);
            },
            QuadTree::External { point, .. } => {
                reveal_with_fuel(sum_to, 2);
                assert(self.leaves() =~= seq![point]);
            },
            QuadTree::Empty { .. } => {
                assert(self.leaves() =~= Seq::<WeightedPoint>::empty());
            },
        }
    }

    /// If a node that was offered a point has no merged leaf, it had none
    /// before, and the force of its leaves has grown by the force of the
    /// point, if it took the point.
    pub proof fn lemma_inserted_force(self, q: Vec2, depth: nat, p: Vec2, g: int, aoe2: int)
        requires
            self.wf(),
            self.fits(depth),
            self.mass() < u32::MAX,
            self.inserted(q, depth).0.unmerged(),
        ensures
            self.unmerged(),
            self.inserted(q, depth).0.leaves_force_x(p, g, aoe2) == self.leaves_force_x(p, g, aoe2)
                + if self.inserted(q, depth).1 {
                kernel_x(p, q, 1, g, aoe2)
            } else {
                0
            },
            self.inserted(q, depth).0.leaves_force_y(p, g, aoe2) == self.leaves_force_y(p, g, aoe2)
                + if self.inserted(q, depth).1 {
                kernel_y(p, q, 1, g, aoe2)
            } else {
                0
            },
        decreases MAX_DEPTH - depth, 1nat,
    {
        let after = self.inserted(q, depth).0;
        self.lemma_leaves_force(p, g, aoe2);
        after.lemma_leaves_force(p, g, aoe2);
        match self {
            QuadTree::Empty { .. } => {},
            QuadTree::External { boundary, point } => {
                if boundary.has(q) && depth < MAX_DEPTH {
                    let split = QuadTree::spec_split(boundary);
                    QuadTree::lemma_split(boundary, depth);
                    split.lemma_placed(point.pos, depth);
                    let divided = split.placed(point.pos, depth).0;
                    divided.lemma_placed_force(q, depth, p, g, aoe2);
                    split.lemma_placed_force(point.pos, depth, p, g, aoe2);
                    split.lemma_leaves_force(p, g, aoe2);
                    assert(split.leaves() =~= Seq::<WeightedPoint>::empty());
                    assert(split.leaves_force_x(p, g, aoe2) == 0);
                    assert(split.leaves_force_y(p, g, aoe2) == 0);
                }
            },
            QuadTree::Internal { boundary, .. } => {
                if boundary.has(q) {
                    self.lemma_placed_force(q, depth, p, g, aoe2);
                }
            },
        }
    }

    /// If a divided node that was offered a point of its rectangle has no
    /// merged leaf, it had none before, and the force of its leaves has grown
    /// by the force of the point.
    pub proof fn lemma_placed_force(self, q: Vec2, depth: nat, p: Vec2, g: int, aoe2: int)
        requires
            self is Internal,
            self.wf(),
            self.fits(depth),
            self.mass() < u32::MAX,
            self.spec_boundary().has(q),
            self.placed(q, depth).0.unmerged(),
        ensures
            self.unmerged(),
            self.placed(q, depth).0.leaves_force_x(p, g, aoe2) == self.leaves_force_x(p, g, aoe2)
                + kernel_x(p, q, 1, g, aoe2),
            self.placed(q, depth).0.leaves_force_y(p, g, aoe2) == self.leaves_force_y(p, g, aoe2)
                + kernel_y(p, q, 1, g, aoe2),
        decreases MAX_DEPTH - depth, 0nat,
    {
        let after = self.placed(q, depth).0;
        self.lemma_placed(q, depth);
        self.lemma_leaves_force(p, g, aoe2);
        after.lemma_leaves_force(p, g, aoe2);
        match self {
            QuadTree::Internal { boundary, first, second, third, fourth, cm } => {
                boundary.lemma_quadrants();
                first.lemma_inserted(q, depth + 1);
                second.lemma_inserted(q, depth + 1);
                third.lemma_inserted(q, depth + 1);
                fourth.lemma_inserted(q, depth + 1);
                if first.inserted(q, depth + 1).1 {
                    first.lemma_inserted_force(q, depth + 1, p, g, aoe2);
                } else if second.inserted(q, depth + 1).1 {
                    second.lemma_inserted_force(q, depth + 1, p, g, aoe2);
                } else if third.inserted(q, depth + 1).1 {
                    third.lemma_inserted_force(q, depth + 1, p, g, aoe2);
                } else {
                    fourth.lemma_inserted_force(q, depth + 1, p, g, aoe2);
                }
            },
            _ => {},
        }
    }

    /// In a measured tree over a rectangle that holds the origin, every leaf
    /// point and every center of mass lies in the rectangle.
    pub proof fn lemma_within_boundary(self, q: Vec2, aoe2: int)
        requires
            self.wf(),
            self.is_measured(),
            self.mass() <= u32::MAX,
            self.spec_boundary().has(q),
            self.spec_boundary().has(Vec2 { x: 0, y: 0 }),
            aoe2 * ONE >= dist2(self.spec_boundary().start, self.spec_boundary().end),
        ensures
            self.covered(q, aoe2),
    {
        self.lemma_covered(self.spec_boundary(), q, aoe2);
    }

    /// In a measured tree inside a rectangle `outer` that holds the origin,
    /// everything is within reach of a point of `outer` if the diagonal of
    /// `outer` is.
    pub proof fn lemma_covered(self, outer: Rect, q: Vec2, aoe2: int)
        requires
            self.wf(),
            self.is_measured(),
            self.mass() <= u32::MAX,
            outer.has(self.spec_boundary().start),
            outer.has(self.spec_boundary().end),
            outer.has(q),
            outer.has(Vec2 { x: 0, y: 0 }),
            aoe2 * ONE >= dist2(outer.start, outer.end),
        ensures
            self.covered(q, aoe2),
        decreases self,
    {
        match self {
            QuadTree::Internal { boundary, first, second, third, fourth, cm } => {
                boundary.lemma_quadrants();
                assert(boundary.quadrant(0).wf() && boundary.quadrant(1).wf()
                    && boundary.quadrant(2).wf() && boundary.quadrant(3).wf());
                let q0 = boundary.quadrant(0);
                let q1 = boundary.quadrant(1);
                let q2 = boundary.quadrant(2);
                let q3 = boundary.quadrant(3);
                assert(q0.has(q0.start) && q0.has(q0.end) && q1.has(q1.start) && q1.has(q1.end)
                    && q2.has(q2.start) && q2.has(q2.end) && q3.has(q3.start) && q3.has(q3.end));
                first.lemma_covered(outer, q, aoe2);
                second.lemma_covered(outer, q, aoe2);
                third.lemma_covered(outer, q, aoe2);
                fourth.lemma_covered(outer, q, aoe2);
                if self.mass() > 0 {
                    self.lemma_centroid_inside();
                }
                lemma_box_diagonal(outer, q, cm.pos);
            },
            QuadTree::External { boundary, point } => {
                lemma_box_diagonal(outer, q, point.pos);
            },
            QuadTree::Empty { .. } => {},
        }
    }
}

/// Two points of a rectangle are no farther apart than its corners.
pub proof fn lemma_box_diagonal(outer: Rect, a: Vec2, b: Vec2)
    requires
        outer.has(a),
        outer.has(b),
    ensures
        dist2(a, b) <= dist2(outer.start, outer.end),
{
    let (w, h) = (outer.end.x - outer.start.x, outer.end.y - outer.start.y);
    let (dx, dy) = (b.x - a.x, b.y - a.y);
    assert(dx * dx <= w * w) by (nonlinear_arith)
        requires
            -w <= dx <= w,
    ;
    assert(dy * dy <= h * h) by (nonlinear_arith)
        requires
            -h <= dy <= h,
    ;
}

/// Every particle of `ps` lies in `bound`.
pub open spec fn all_inside(bound: Rect, ps: Seq<Particle>) -> bool {
    forall|k: int| 0 <= k < ps.len() ==> bound.has((#[trigger] ps[k]).pos)
}

/// The tree grown from some particles inside its rectangle holds one unit of
/// mass for each of them.
pub proof fn lemma_grown_mass(bound: Rect, ps: Seq<Particle>)
    requires
        bound.wf(),
        ps.len() <= u32::MAX,
        all_inside(bound, ps),
    ensures
        grown(bound, ps).mass() == ps.len(),
        built(bound, ps).mass() == ps.len(),
    decreases ps.len(),
{
    if ps.len() > 0 {
        let fewer = ps.drop_last();
        assert(all_inside(bound, fewer)) by {
            assert forall|k: int| 0 <= k < fewer.len() implies bound.has(
                (#[trigger] fewer[k]).pos,
            ) by {
                assert(fewer[k] == ps[k]);
            }
        }
        lemma_grown(bound, fewer);
        lemma_grown_mass(bound, fewer);
        grown(bound, fewer).lemma_inserted(ps.last().pos, 0);
    }
    lemma_grown(bound, ps);
    grown(bound, ps).lemma_measured(0);
}

/// If the tree grown from some particles inside its rectangle has no merged
/// leaf, the force of its leaves is the pairwise force of the particles.
pub proof fn lemma_grown_force(bound: Rect, ps: Seq<Particle>, p: Vec2, g: int, aoe2: int)
    requires
        bound.wf(),
        ps.len() <= u32::MAX,
        all_inside(bound, ps),
        grown(bound, ps).unmerged(),
    ensures
        grown(bound, ps).leaves_force_x(p, g, aoe2) == pairwise_force_x(ps, p, g, aoe2),
        grown(bound, ps).leaves_force_y(p, g, aoe2) == pairwise_force_y(ps, p, g, aoe2),
    decreases ps.len(),
{
    if ps.len() == 0 {
        grown(bound, ps).lemma_leaves_force(p, g, aoe2);
    } else {
        let fewer = ps.drop_last();
        let before = grown(bound, fewer);
        lemma_grown(bound, fewer);
        before.lemma_inserted(ps.last().pos, 0);
        before.lemma_inserted_force(ps.last().pos, 0, p, g, aoe2);
        assert(all_inside(bound, fewer)) by {
            assert forall|k: int| 0 <= k < fewer.len() implies bound.has(
                (#[trigger] fewer[k]).pos,
            ) by {
                assert(fewer[k] == ps[k]);
            }
        }
        lemma_grown_force(bound, fewer, p, g, aoe2);
        lemma_sum_ext(
            fewer.len(),
            |k: int| kernel_x(p, fewer[k].pos, 1, g, aoe2),
            |k: int| kernel_x(p, ps[k].pos, 1, g, aoe2),
        );
        lemma_sum_ext(
            fewer.len(),
            |k: int| kernel_y(p, fewer[k].pos, 1, g, aoe2),
            |k: int| kernel_y(p, ps[k].pos, 1, g, aoe2),
        );
    }
}

/// With an opening threshold of zero, the tree built from some particles
/// inside its rectangle, if it has no merged leaf and is within reach as a
/// whole, exerts the pairwise force of the particles.
pub proof fn lemma_tree_is_exact(
    bound: Rect,
    ps: Seq<Particle>,
    p: Vec2,
    g: int,
    aoe2: int,
    theta: int,
)
    requires
        bound.wf(),
        ps.len() <= u32::MAX,
        all_inside(bound, ps),
        grown(bound, ps).unmerged(),
        theta <= 0,
        built(bound, ps).covered(p, aoe2),
    ensures
        built(bound, ps).force_x(p, g, aoe2, theta) == pairwise_force_x(ps, p, g, aoe2),
        built(bound, ps).force_y(p, g, aoe2, theta) == pairwise_force_y(ps, p, g, aoe2),
{
    lemma_grown(bound, ps);
    grown(bound, ps).lemma_measured(0);
    built(bound, ps).lemma_points_exact(p, aoe2, theta);
    lemma_grown_force(bound, ps, p, g, aoe2);
}

/// With an opening threshold of zero and an area of effect that spans the
/// world, in a world whose particles all lie in the world rectangle and
/// whose quadtrees have no merged leaf, the Barnes-Hut approximation gives
/// every particle the force of the pairwise computation.
pub proof fn lemma_world_is_exact(w: World, c: int, k: int)
    requires
        w.wf(),
        0 <= c < w.conf.num_cultures,
        0 <= k < w.conf.culture_size,
        w.conf.theta <= 0,
        w.conf.aoe2 * ONE >= dist2(w.conf.bound.start, w.conf.bound.end),
        forall|j: int|
            0 <= j < w.conf.num_cultures ==> all_inside(
                w.conf.bound,
                (#[trigger] w.cultures@[j]).particles@,
            ) && grown(w.conf.bound, w.cultures@[j].particles@).unmerged(),
    ensures
        w.tree_force(c, k) == w.pair_force(c, k),
{
    let n = w.cultures@.len();
    let p = w.particle(c, k).pos;
    let aoe2 = w.conf.aoe2 as int;
    let theta = w.conf.theta as int;
    let bound = w.conf.bound;
    assert(bound.has(p)) by {
        assert(all_inside(bound, w.cultures@[c].particles@));
    }
    assert forall|j: int| 0 <= j < n implies built(bound, w.cultures@[j].particles@).force_x(
        p,
        w.coefficient(c, j),
        aoe2,
        theta,
    ) == pairwise_force_x(w.cultures@[j].particles@, p, w.coefficient(c, j), aoe2) && built(
        bound,
        w.cultures@[j].particles@,
    ).force_y(p, w.coefficient(c, j), aoe2, theta) == pairwise_force_y(
        w.cultures@[j].particles@,
        p,
        w.coefficient(c, j),
        aoe2,
    ) by {
        let ps = w.cultures@[j].particles@;
        assert(ps.len() == w.conf.culture_size);
        crate::sim::lemma_crowd(n as int, w.conf.culture_size as int, j);
        assert(all_inside(bound, w.cultures@[j].particles@));
        crate::culture::lemma_built(bound, ps);
        built(bound, ps).lemma_within_boundary(p, aoe2);
        lemma_tree_is_exact(bound, ps, p, w.coefficient(c, j), aoe2, theta);
    }
    lemma_sum_ext(
        n,
        |j: int|
            built(w.conf.bound, w.cultures@[j].particles@).force_x(
                w.particle(c, k).pos,
                w.coefficient(c, j),
                w.conf.aoe2 as int,
                w.conf.theta as int,
            ),
        |j: int|
            pairwise_force_x(
                w.cultures@[j].particles@,
                w.particle(c, k).pos,
                w.coefficient(c, j),
                w.conf.aoe2 as int,
            ),
    );
    lemma_sum_ext(
        n,
        |j: int|
            built(w.conf.bound, w.cultures@[j].particles@).force_y(
                w.particle(c, k).pos,
                w.coefficient(c, j),
                w.conf.aoe2 as int,
                w.conf.theta as int,
            ),
        |j: int|
            pairwise_force_y(
                w.cultures@[j].particles@,
                w.particle(c, k).pos,
                w.coefficient(c, j),
                w.conf.aoe2 as int,
            ),
    );
}

} // verus!
