//! A culture: particles of one colour, and the quadtree over their positions.

use crate::fixed::{in_range, magnitude, LIMIT, ONE};
use crate::kernel::{kernel, kernel_x, kernel_y, lemma_kernel_bound};
use crate::particle::{stepped, Particle};
use crate::qt::{QuadTree, Rect};
use crate::sums::{lemma_sum_bound, lemma_sum_const, sum_to};
use crate::util::Color;
use crate::vector::{Force, Vec2};
use vstd::prelude::*;

verus! {

/// The tree over `bound` after the positions of `ps` were offered to it in
/// order, before it is measured.
pub open spec fn grown(bound: Rect, ps: Seq<Particle>) -> QuadTree
    decreases ps.len(),
{
    if ps.len() == 0 {
        QuadTree::Empty { boundary: bound }
    } else {
        grown(bound, ps.drop_last()).inserted(ps.last().pos, 0).0
    }
}

/// The measured tree over `bound` of the positions of `ps`.
pub open spec fn built(bound: Rect, ps: Seq<Particle>) -> QuadTree {
    grown(bound, ps).measured()
}

/// The tree grown from at most `u32::MAX` particles is well-formed, covers
/// `bound`, and holds at most one unit of mass for each particle.
pub proof fn lemma_grown(bound: Rect, ps: Seq<Particle>)
    requires
        bound.wf(),
        ps.len() <= u32::MAX,
    ensures
        grown(bound, ps).wf(),
        grown(bound, ps).fits(0),
        grown(bound, ps).spec_boundary() == bound,
        grown(bound, ps).mass() <= ps.len(),
    decreases ps.len(),
{
    if ps.len() > 0 {
        lemma_grown(bound, ps.drop_last());
        grown(bound, ps.drop_last()).lemma_inserted(ps.last().pos, 0);
    }
}

/// The tree built from at most `u32::MAX` particles is well-formed and
/// measured, covers `bound`, and holds at most one unit of mass for each
/// particle.
pub proof fn lemma_built(bound: Rect, ps: Seq<Particle>)
    requires
        bound.wf(),
        ps.len() <= u32::MAX,
    ensures
        built(bound, ps).wf(),
        built(bound, ps).fits(0),
        built(bound, ps).is_measured(),
        built(bound, ps).spec_boundary() == bound,
        built(bound, ps).mass() <= ps.len(),
{
    lemma_grown(bound, ps);
    grown(bound, ps).lemma_measured(0);
}

/// The x coordinate of the total force on a particle at `p` from the
/// particles `ps`, each taken by itself, under the coefficient `g`.
pub open spec fn pairwise_force_x(ps: Seq<Particle>, p: Vec2, g: int, aoe2: int) -> int {
    sum_to(ps.len(), |k: int| kernel_x(p, ps[k].pos, 1, g, aoe2))
}

/// The y coordinate of the total force on a particle at `p` from the
/// particles `ps`, each taken by itself, under the coefficient `g`.
pub open spec fn pairwise_force_y(ps: Seq<Particle>, p: Vec2, g: int, aoe2: int) -> int {
    sum_to(ps.len(), |k: int| kernel_y(p, ps[k].pos, 1, g, aoe2))
}

/// The pairwise force of some particles is no larger, coordinate by
/// coordinate, than the coefficient times their number.
pub proof fn lemma_pairwise_force_bound(ps: Seq<Particle>, p: Vec2, g: int, aoe2: int)
    ensures
        magnitude(pairwise_force_x(ps, p, g, aoe2)) <= magnitude(g) * ps.len(),
        magnitude(pairwise_force_y(ps, p, g, aoe2)) <= magnitude(g) * ps.len(),
{
    let fx = |k: int| kernel_x(p, ps[k].pos, 1, g, aoe2);
    let fy = |k: int| kernel_y(p, ps[k].pos, 1, g, aoe2);
    let fb = |k: int| magnitude(g);
    assert forall|k: int| 0 <= k < ps.len() implies magnitude(#[trigger] fx(k)) <= fb(k) by {
        lemma_kernel_bound(p, ps[k].pos, 1, g, aoe2);
    }
    assert forall|k: int| 0 <= k < ps.len() implies magnitude(#[trigger] fy(k)) <= fb(k) by {
        lemma_kernel_bound(p, ps[k].pos, 1, g, aoe2);
    }
    lemma_sum_bound(ps.len(), fx, fb);
    lemma_sum_bound(ps.len(), fy, fb);
    lemma_sum_const(ps.len(), fb, magnitude(g));
    assert(ps.len() * magnitude(g) == magnitude(g) * ps.len()) by (nonlinear_arith);
}

/// The sum of two stored forces.
pub open spec fn both(a: Vec2, b: Vec2) -> Vec2 {
    Vec2 { x: (a.x + b.x) as i64, y: (a.y + b.y) as i64 }
}

/// Every particle of `ps` is storable.
pub open spec fn all_storable(ps: Seq<Particle>) -> bool {
    forall|k: int| 0 <= k < ps.len() ==> (#[trigger] ps[k]).wf()
}

/// The total force on a particle at `pos` from the particles `others`, each
/// taken by itself, under the coefficient `g`.
pub fn sum_pairwise(pos: &Vec2, others: &Vec<Particle>, g: i64, aoe2: i64) -> (f: Force)
    requires
        pos.in_range(),
        in_range(g as int),
        all_storable(others@),
        others@.len() <= u32::MAX,
    ensures
        f.x == pairwise_force_x(others@, *pos, g as int, aoe2 as int),
        f.y == pairwise_force_y(others@, *pos, g as int, aoe2 as int),
        magnitude(f.x as int) <= LIMIT * others@.len(),
        magnitude(f.y as int) <= LIMIT * others@.len(),
{
    let ghost fx = |k: int| kernel_x(*pos, others@[k].pos, 1, g as int, aoe2 as int);
    let ghost fy = |k: int| kernel_y(*pos, others@[k].pos, 1, g as int, aoe2 as int);
    let n: usize = others.len();
    let mut acc: Force = Force { x: 0, y: 0 };
    let mut i: usize = 0;
    while i < n
        invariant
            i <= n,
            n == others@.len(),
            n <= u32::MAX,
            pos.in_range(),
            in_range(g as int),
            all_storable(others@),
            fx == |k: int| kernel_x(*pos, others@[k].pos, 1, g as int, aoe2 as int),
            fy == |k: int| kernel_y(*pos, others@[k].pos, 1, g as int, aoe2 as int),
            acc.x == sum_to(i as nat, fx),
            acc.y == sum_to(i as nat, fy),
            magnitude(acc.x as int) <= LIMIT * i,
            magnitude(acc.y as int) <= LIMIT * i,
        decreases n - i,
    {
        let other: Particle = others[i];
        let part: Force = kernel(pos, &other.pos, 1, g, aoe2);
        proof {
            lemma_kernel_bound(*pos, other.pos, 1, g as int, aoe2 as int);
            let a = magnitude(g as int);
            assert(a * 1 <= LIMIT && LIMIT * (i + 1) == LIMIT * i + LIMIT && LIMIT * (i + 1)
                <= LIMIT * 0xffff_ffff) by (nonlinear_arith)
                requires
                    0 <= a <= LIMIT,
                    0 <= i < 0xffff_ffff,
            ;
        }
        acc = Force { x: acc.x + part.x, y: acc.y + part.y };
        i += 1;
    }
    proof {
        assert(LIMIT * i == LIMIT * others@.len());
    }
    acc
}

/// Particles of one colour, and the quadtree over their positions as of its
/// last rebuilding.
#[derive(Debug)]
pub struct Culture {
    pub color: Color,
    pub particles: Vec<Particle>,
    pub qt: QuadTree,
}

impl Culture {
    /// A culture of `size` particles at rest at random whole-unit positions of
    /// `bound`, with an empty quadtree.
    pub fn new(color: Color, size: usize, bound: Rect) -> (c: Culture)
        requires
            bound.wf(),
            bound.start == (Vec2 { x: 0, y: 0 }),
            bound.end.x >= ONE,
            bound.end.y >= ONE,
        ensures
            c.color == color,
            c.particles@.len() == size,
            c.qt == (QuadTree::Empty { boundary: bound }),
            all_storable(c.particles@),
            forall|k: int|
                0 <= k < size ==> bound.has((#[trigger] c.particles@[k]).pos) && c.particles@[k].vel
                    == (Vec2 { x: 0, y: 0 }),
    {
        let mut particles: Vec<Particle> = Vec::new();
        let mut i: usize = 0;
        while i < size
            invariant
                i <= size,
                bound.wf(),
                bound.start == (Vec2 { x: 0, y: 0 }),
                bound.end.x >= ONE,
                bound.end.y >= ONE,
                particles@.len() == i,
                all_storable(particles@),
                forall|k: int|
                    0 <= k < i ==> bound.has((#[trigger] particles@[k]).pos) && particles@[k].vel
                        == (Vec2 { x: 0, y: 0 }),
            decreases size - i,
        {
            particles.push(Particle::new(bound.end));
            i += 1;
        }
        Culture { color, particles, qt: QuadTree::Empty { boundary: bound } }
    }

    /// Rebuilds the quadtree of the culture over `bound` from the positions
    /// of its particles: every position is offered to an empty tree, then the
    /// tree is measured. Particles outside `bound` are left out.
    pub fn quadtree(&mut self, bound: &Rect)
        requires
            bound.wf(),
            old(self).particles@.len() <= u32::MAX,
        ensures
            final(self).qt == built(*bound, old(self).particles@),
            final(self).particles == old(self).particles,
            final(self).color == old(self).color,
    {
        let mut qt: QuadTree = QuadTree::Empty { boundary: *bound };
        let n: usize = self.particles.len();
        let mut i: usize = 0;
        while i < n
            invariant
                i <= n,
                n == self.particles@.len(),
                n <= u32::MAX,
                bound.wf(),
                qt == grown(*bound, self.particles@.take(i as int)),
            decreases n - i,
        {
            proof {
                lemma_grown(*bound, self.particles@.take(i as int));
                assert(self.particles@.take(i + 1).drop_last() =~= self.particles@.take(i as int));
            }
            let _taken: bool = qt.insert(&self.particles[i].pos, 0);
            i += 1;
        }
        proof {
            assert(self.particles@.take(n as int) =~= self.particles@);
            lemma_grown(*bound, self.particles@);
        }
        let _whole = qt.measure_nodes();
        self.qt = qt;
    }

    /// Moves every particle of the culture through one tick of length `tau`,
    /// particle `k` under the sum of `forces[k]` and `cursor[k]`.
    pub fn advance_all(
        &mut self,
        forces: &Vec<Vec2>,
        cursor: &Vec<Vec2>,
        damping: i64,
        tau: i64,
        size: &Vec2,
    )
        requires
            all_storable(old(self).particles@),
            forces@.len() == old(self).particles@.len(),
            cursor@.len() == old(self).particles@.len(),
            forall|k: int| 0 <= k < forces@.len() ==> (#[trigger] forces@[k]).in_range(),
            forall|k: int| 0 <= k < cursor@.len() ==> (#[trigger] cursor@[k]).in_range(),
            in_range(damping as int),
            in_range(tau as int),
            size.in_range(),
            0 <= size.x,
            0 <= size.y,
        ensures
            final(self).particles@.len() == old(self).particles@.len(),
            all_storable(final(self).particles@),
            forall|k: int|
                0 <= k < old(self).particles@.len() ==> #[trigger] final(self).particles@[k]
                    == stepped(
                    old(self).particles@[k],
                    both(forces@[k], cursor@[k]),
                    damping as int,
                    tau as int,
                    *size,
                ),
            final(self).color == old(self).color,
            final(self).qt == old(self).qt,
    {
        let n: usize = self.particles.len();
        let mut k: usize = 0;
        while k < n
            invariant
                k <= n,
                n == self.particles@.len(),
                n == old(self).particles@.len(),
                forces@.len() == n,
                cursor@.len() == n,
                forall|a: int| 0 <= a < forces@.len() ==> (#[trigger] forces@[a]).in_range(),
                forall|a: int| 0 <= a < cursor@.len() ==> (#[trigger] cursor@[a]).in_range(),
                in_range(damping as int),
                in_range(tau as int),
                size.in_range(),
                0 <= size.x,
                0 <= size.y,
                all_storable(self.particles@),
                self.color == old(self).color,
                self.qt == old(self).qt,
                forall|a: int| k <= a < n ==> self.particles@[a] == old(self).particles@[a],
                forall|a: int|
                    0 <= a < k ==> #[trigger] self.particles@[a] == stepped(
                        old(self).particles@[a],
                        both(forces@[a], cursor@[a]),
                        damping as int,
                        tau as int,
                        *size,
                    ),
            decreases n - k,
        {
            let f: Vec2 = forces[k];
            let fc: Vec2 = cursor[k];
            let total: Vec2 = Vec2 { x: f.x + fc.x, y: f.y + fc.y };
            assert(self.particles@[k as int].wf());
            self.particles[k].advance(&total, damping, tau, size);
            k += 1;
        }
    }

    /// For each particle of this culture, the force of all particles of
    /// `other`, each taken by itself, under the coefficient `g`.
    pub fn _naive_force(&self, other: &Culture, g: i64, aoe2: i64) -> (forces: Vec<Force>)
        requires
            all_storable(self.particles@),
            all_storable(other.particles@),
            other.particles@.len() <= u32::MAX,
            in_range(g as int),
        ensures
            forces@.len() == self.particles@.len(),
            forall|k: int|
                0 <= k < forces@.len() ==> (#[trigger] forces@[k]).x == pairwise_force_x(
                    other.particles@,
                    self.particles@[k].pos,
                    g as int,
                    aoe2 as int,
                ) && forces@[k].y == pairwise_force_y(
                    other.particles@,
                    self.particles@[k].pos,
                    g as int,
                    aoe2 as int,
                ),
    {
        let mut forces: Vec<Force> = Vec::new();
        let n: usize = self.particles.len();
        let mut i: usize = 0;
        while i < n
            invariant
                i <= n,
                n == self.particles@.len(),
                all_storable(self.particles@),
                all_storable(other.particles@),
                other.particles@.len() <= u32::MAX,
                in_range(g as int),
                forces@.len() == i,
                forall|k: int|
                    0 <= k < i ==> (#[trigger] forces@[k]).x == pairwise_force_x(
                        other.particles@,
                        self.particles@[k].pos,
                        g as int,
                        aoe2 as int,
                    ) && forces@[k].y == pairwise_force_y(
                        other.particles@,
                        self.particles@[k].pos,
                        g as int,
                        aoe2 as int,
                    ),
            decreases n - i,
        {
            let f: Force = sum_pairwise(&self.particles[i].pos, &other.particles, g, aoe2);
            forces.push(f);
            i += 1;
        }
        forces
    }

    /// For each particle of this culture, the force of the quadtree of
    /// `other` under the coefficient `g`, by the Barnes-Hut approximation with
    /// the opening threshold `theta`.
    pub fn force(&self, other: &Culture, g: i64, aoe2: i64, theta: i64) -> (forces: Vec<Force>)
        requires
            all_storable(self.particles@),
            other.qt.wf(),
            other.qt.is_measured(),
            other.qt.mass() <= u32::MAX,
            in_range(g as int),
        ensures
            forces@.len() == self.particles@.len(),
            forall|k: int|
                0 <= k < forces@.len() ==> (#[trigger] forces@[k]).x == other.qt.force_x(
                    self.particles@[k].pos,
                    g as int,
                    aoe2 as int,
                    theta as int,
                ) && forces@[k].y == other.qt.force_y(
                    self.particles@[k].pos,
                    g as int,
                    aoe2 as int,
                    theta as int,
                ),
    {
        let mut forces: Vec<Force> = Vec::new();
        let n: usize = self.particles.len();
        let mut i: usize = 0;
        while i < n
            invariant
                i <= n,
                n == self.particles@.len(),
                all_storable(self.particles@),
                other.qt.wf(),
                other.qt.is_measured(),
                other.qt.mass() <= u32::MAX,
                in_range(g as int),
                forces@.len() == i,
                forall|k: int|
                    0 <= k < i ==> (#[trigger] forces@[k]).x == other.qt.force_x(
                        self.particles@[k].pos,
                        g as int,
                        aoe2 as int,
                        theta as int,
                    ) && forces@[k].y == other.qt.force_y(
                        self.particles@[k].pos,
                        g as int,
                        aoe2 as int,
                        theta as int,
                    ),
            decreases n - i,
        {
            let f: Force = other.qt.accumulate(&self.particles[i].pos, g, aoe2, theta);
            forces.push(f);
            i += 1;
        }
        forces
    }
}

} // verus!
