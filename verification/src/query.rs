//! The Barnes-Hut query: the weighted points that stand for a tree as seen
//! from one position.
//!
//! A node whose point, or center of mass, is beyond the area of effect gives
//! nothing. A divided node that looks small from the position (its width over
//! its distance is below the opening threshold) gives its center of mass; any
//! other divided node gives what its children give.

use crate::fixed::{in_range, magnitude, LIMIT, ONE};
use crate::kernel::{kernel, kernel_x, kernel_y, lemma_kernel_bound, within};
use crate::qt::{QuadTree, WeightedPoint};
use crate::sums::{
    lemma_sum_bound, lemma_sum_prefix, lemma_sum_scale, lemma_sum_split, sum_to,
};
use crate::vector::{dist2, Force, Vec2};
use vstd::prelude::*;

verus! {

/// The point `s` is farther from `q` than the area of effect reaches.
pub open spec fn beyond(q: Vec2, s: Vec2, aoe2: int) -> bool {
    dist2(q, s) > aoe2 * ONE
}

/// A rectangle of the given width at squared distance `d2` looks small enough
/// to stand as one point: `width / distance < theta`, for raw fixed-point
/// `width` and `theta`.
pub open spec fn looks_small(width: int, d2: int, theta: int) -> bool {
    theta > 0 && (width * ONE) * (width * ONE) < (theta * theta) * d2
}

/// The points of an answer; none where there is no answer.
pub open spec fn flat(o: Option<Seq<WeightedPoint>>) -> Seq<WeightedPoint> {
    match o {
        Some(s) => s,
        None => Seq::empty(),
    }
}

/// Total mass of a sequence of weighted points.
pub open spec fn mass_of(s: Seq<WeightedPoint>) -> int {
    sum_to(s.len(), |k: int| s[k].mass as int)
}

/// The mass of a concatenation is the sum of the masses.
pub proof fn lemma_mass_of_concat(a: Seq<WeightedPoint>, b: Seq<WeightedPoint>)
    ensures
        mass_of(a + b) == mass_of(a) + mass_of(b),
        mass_of(a) >= 0,
{
    let s = a + b;
    lemma_sum_split(
        a.len(),
        b.len(),
        |k: int| s[k].mass as int,
        |k: int| a[k].mass as int,
        |k: int| b[k].mass as int,
    );
    lemma_mass_of_nonnegative(a);
}

/// A total mass is not negative.
pub proof fn lemma_mass_of_nonnegative(a: Seq<WeightedPoint>)
    ensures
        mass_of(a) >= 0,
{
    crate::sums::lemma_sum_le(a.len(), |k: int| 0int, |k: int| a[k].mass as int);
    crate::sums::lemma_sum_zero(a.len(), |k: int| 0int);
}

/// `a < b * c` exactly if `a / b < c`, for a positive `b`.
pub proof fn lemma_less_than_product(a: int, b: int, c: int)
    requires
        a >= 0,
        b > 0,
        c >= 0,
    ensures
        (a < b * c) == (a / b < c),
{
    assert((a < b * c) == (a / b < c)) by (nonlinear_arith)
        requires
            a >= 0,
            b > 0,
            c >= 0,
    ;
}

/// Whether a rectangle of the given width at squared distance `d2` looks small.
fn small_enough(width: i64, d2: u128, theta: i64) -> (b: bool)
    requires
        0 <= width <= 2 * LIMIT,
    ensures
        b == looks_small(width as int, d2 as int, theta as int),
{
    if theta <= 0 {
        return false;
    }
    assert(0 <= width * ONE <= 2 * LIMIT * ONE) by (nonlinear_arith)
        requires
            0 <= width <= 2 * LIMIT,
            ONE == 65536,
    ;
    let a: u128 = (width as u128) * (ONE as u128);
    assert(0 <= a * a <= 0x200_0000_0000_0000 * 0x200_0000_0000_0000) by (nonlinear_arith)
        requires
            0 <= a <= 0x200_0000_0000_0000,
    ;
    let lhs: u128 = a * a;
    let t: u128 = theta as u128;
    assert(0 < t * t <= 0x7fff_ffff_ffff_ffff * 0x7fff_ffff_ffff_ffff) by (nonlinear_arith)
        requires
            0 < t <= 0x7fff_ffff_ffff_ffff,
    ;
    let t2: u128 = t * t;
    proof {
        lemma_less_than_product(lhs as int, t2 as int, d2 as int);
    }
    lhs / t2 < d2
}

impl QuadTree {
    /// The weighted points that stand for the node as seen from `q`, with the
    /// squared radius `aoe2` of the area of effect and the opening threshold
    /// `theta`; `None` where the node is empty or out of reach.
    pub open spec fn points_for(self, q: Vec2, aoe2: int, theta: int) -> Option<
        Seq<WeightedPoint>,
    >
        decreases self,
    {
        match self {
            QuadTree::Empty { .. } => None,
            QuadTree::External { point, .. } => if beyond(q, point.pos, aoe2) {
                None
            } else {
                Some(seq![point])
            },
            QuadTree::Internal { boundary, first, second, third, fourth, cm } => if beyond(
                q,
                cm.pos,
                aoe2,
            ) {
                None
            } else if looks_small(boundary.spec_width(), dist2(q, cm.pos), theta) {
                Some(seq![cm])
            } else {
                Some(
                    flat(first.points_for(q, aoe2, theta)) + flat(
                        second.points_for(q, aoe2, theta),
                    ) + flat(third.points_for(q, aoe2, theta)) + flat(
                        fourth.points_for(q, aoe2, theta),
                    ),
                )
            },
        }
    }

    /// Every leaf point and every stored center of mass is within reach of `q`.
    pub open spec fn covered(self, q: Vec2, aoe2: int) -> bool
        decreases self,
    {
        match self {
            QuadTree::Empty { .. } => true,
            QuadTree::External { point, .. } => !beyond(q, point.pos, aoe2),
            QuadTree::Internal { first, second, third, fourth, cm, .. } => {
                &&& !beyond(q, cm.pos, aoe2)
                &&& first.covered(q, aoe2)
                &&& second.covered(q, aoe2)
                &&& third.covered(q, aoe2)
                &&& fourth.covered(q, aoe2)
            },
        }
    }

    /// No point of an answer is beyond the area of effect.
    pub proof fn lemma_points_within(self, q: Vec2, aoe2: int, theta: int)
        ensures
            forall|k: int|
                0 <= k < flat(self.points_for(q, aoe2, theta)).len() ==> !beyond(
                    q,
                    (#[trigger] flat(self.points_for(q, aoe2, theta))[k]).pos,
                    aoe2,
                ),
        decreases self,
    {
        match self {
            QuadTree::Internal { first, second, third, fourth, .. } => {
                first.lemma_points_within(q, aoe2, theta);
                second.lemma_points_within(q, aoe2, theta);
                third.lemma_points_within(q, aoe2, theta);
                fourth.lemma_points_within(q, aoe2, theta);
            },
            _ => {},
        }
    }

    /// Every point of an answer is storable.
    pub proof fn lemma_points_in_range(self, q: Vec2, aoe2: int, theta: int)
        requires
            self.wf(),
        ensures
            forall|k: int|
                0 <= k < flat(self.points_for(q, aoe2, theta)).len() ==> (#[trigger] flat(
                    self.points_for(q, aoe2, theta),
                )[k]).pos.in_range(),
        decreases self,
    {
        match self {
            QuadTree::Internal { first, second, third, fourth, .. } => {
                first.lemma_points_in_range(q, aoe2, theta);
                second.lemma_points_in_range(q, aoe2, theta);
                third.lemma_points_in_range(q, aoe2, theta);
                fourth.lemma_points_in_range(q, aoe2, theta);
            },
            _ => {},
        }
    }

    /// The points of an answer stand for no more particles than the tree
    /// holds: no leaf is counted twice.
    pub proof fn lemma_points_mass(self, q: Vec2, aoe2: int, theta: int)
        requires
            self.is_measured(),
            self.mass() <= u32::MAX,
        ensures
            0 <= mass_of(flat(self.points_for(q, aoe2, theta))) <= self.mass(),
        decreases self,
    {
        let out = flat(self.points_for(q, aoe2, theta));
        lemma_mass_of_nonnegative(out);
        match self {
            QuadTree::Internal { boundary, first, second, third, fourth, cm } => {
                if beyond(q, cm.pos, aoe2) {
                    assert(out =~= Seq::empty());
                } else if looks_small(boundary.spec_width(), dist2(q, cm.pos), theta) {
                    assert(out =~= seq![cm]);
                    reveal_with_fuel(sum_to, 2);
                } else {
                    first.lemma_points_mass(q, aoe2, theta);
                    second.lemma_points_mass(q, aoe2, theta);
                    third.lemma_points_mass(q, aoe2, theta);
                    fourth.lemma_points_mass(q, aoe2, theta);
                    let a = flat(first.points_for(q, aoe2, theta));
                    let b = flat(second.points_for(q, aoe2, theta));
                    let c = flat(third.points_for(q, aoe2, theta));
                    let d = flat(fourth.points_for(q, aoe2, theta));
                    lemma_mass_of_concat(a, b);
                    lemma_mass_of_concat(a + b, c);
                    lemma_mass_of_concat(a + b + c, d);
                }
            },
            QuadTree::External { point, .. } => {
                if beyond(q, point.pos, aoe2) {
                    assert(out =~= Seq::empty());
                } else {
                    assert(out =~= seq![point]);
                    reveal_with_fuel(sum_to, 2);
                }
            },
            QuadTree::Empty { .. } => {
                assert(out =~= Seq::empty());
            },
        }
    }

    /// With an opening threshold of zero, a tree that is within reach as a
    /// whole answers with exactly its leaf points.
    pub proof fn lemma_points_exact(self, q: Vec2, aoe2: int, theta: int)
        requires
            theta <= 0,
            self.covered(q, aoe2),
        ensures
            flat(self.points_for(q, aoe2, theta)) == self.leaves(),
        decreases self,
    {
        match self {
            QuadTree::Internal { first, second, third, fourth, .. } => {
                first.lemma_points_exact(q, aoe2, theta);
                second.lemma_points_exact(q, aoe2, theta);
                third.lemma_points_exact(q, aoe2, theta);
                fourth.lemma_points_exact(q, aoe2, theta);
            },
            _ => {},
        }
    }

    /// The Barnes-Hut approximation of the tree as seen from `pos`: the
    /// weighted points whose forces stand for those of all points of the tree.
    pub fn approximate_points(&self, pos: &Vec2, aoe2: i64, theta: i64) -> (r: Option<
        Vec<WeightedPoint>,
    >)
        requires
            self.wf(),
            pos.in_range(),
        ensures
            r is Some == self.points_for(*pos, aoe2 as int, theta as int) is Some,
            r matches Some(v) ==> self.points_for(*pos, aoe2 as int, theta as int) == Some(v@),
        decreases self,
    {
        match self {
            QuadTree::Empty { .. } => None,
            QuadTree::External { point, .. } => {
                if !within(pos.distance_squared(&point.pos), aoe2) {
                    return None;
                }
                let mut out: Vec<WeightedPoint> = Vec::new();
                out.push(*point);
                Some(out)
            },
            QuadTree::Internal { boundary, first, second, third, fourth, cm } => {
                let d2: u128 = pos.distance_squared(&cm.pos);
                if !within(d2, aoe2) {
                    return None;
                }
                let mut out: Vec<WeightedPoint> = Vec::new();
                if small_enough(boundary.width(), d2, theta) {
                    out.push(*cm);
                    return Some(out);
                }
                if let Some(mut part) = first.approximate_points(pos, aoe2, theta) {
                    out.append(&mut part);
                }
                if let Some(mut part) = second.approximate_points(pos, aoe2, theta) {
                    out.append(&mut part);
                }
                if let Some(mut part) = third.approximate_points(pos, aoe2, theta) {
                    out.append(&mut part);
                }
                if let Some(mut part) = fourth.approximate_points(pos, aoe2, theta) {
                    out.append(&mut part);
                }
                Some(out)
            },
        }
    }
}

/// The x coordinate of the total force on a particle at `p` from the weighted
/// points `pts` under the coefficient `g`.
pub open spec fn points_force_x(pts: Seq<WeightedPoint>, p: Vec2, g: int, aoe2: int) -> int {
    sum_to(pts.len(), |k: int| kernel_x(p, pts[k].pos, pts[k].mass as int, g, aoe2))
}

/// The y coordinate of the total force on a particle at `p` from the weighted
/// points `pts` under the coefficient `g`.
pub open spec fn points_force_y(pts: Seq<WeightedPoint>, p: Vec2, g: int, aoe2: int) -> int {
    sum_to(pts.len(), |k: int| kernel_y(p, pts[k].pos, pts[k].mass as int, g, aoe2))
}

/// The total force of some weighted points is no larger, coordinate by
/// coordinate, than the coefficient times their total mass.
pub proof fn lemma_points_force_bound(pts: Seq<WeightedPoint>, p: Vec2, g: int, aoe2: int)
    ensures
        magnitude(points_force_x(pts, p, g, aoe2)) <= magnitude(g) * mass_of(pts),
        magnitude(points_force_y(pts, p, g, aoe2)) <= magnitude(g) * mass_of(pts),
{
    let fx = |k: int| kernel_x(p, pts[k].pos, pts[k].mass as int, g, aoe2);
    let fy = |k: int| kernel_y(p, pts[k].pos, pts[k].mass as int, g, aoe2);
    let fm = |k: int| pts[k].mass as int;
    let fb = |k: int| magnitude(g) * (pts[k].mass as int);
    assert forall|k: int| 0 <= k < pts.len() implies magnitude(#[trigger] fx(k)) <= fb(k) by {
        lemma_kernel_bound(p, pts[k].pos, pts[k].mass as int, g, aoe2);
    }
    assert forall|k: int| 0 <= k < pts.len() implies magnitude(#[trigger] fy(k)) <= fb(k) by {
        lemma_kernel_bound(p, pts[k].pos, pts[k].mass as int, g, aoe2);
    }
    lemma_sum_bound(pts.len(), fx, fb);
    lemma_sum_bound(pts.len(), fy, fb);
    lemma_sum_scale(pts.len(), fm, magnitude(g), fb);
}

/// The force of a concatenation of weighted points is the sum of the forces.
pub proof fn lemma_points_force_concat(
    a: Seq<WeightedPoint>,
    b: Seq<WeightedPoint>,
    p: Vec2,
    g: int,
    aoe2: int,
)
    ensures
        points_force_x(a + b, p, g, aoe2) == points_force_x(a, p, g, aoe2) + points_force_x(
            b,
            p,
            g,
            aoe2,
        ),
        points_force_y(a + b, p, g, aoe2) == points_force_y(a, p, g, aoe2) + points_force_y(
            b,
            p,
            g,
            aoe2,
        ),
{
    let s = a + b;
    lemma_sum_split(
        a.len(),
        b.len(),
        |k: int| kernel_x(p, s[k].pos, s[k].mass as int, g, aoe2),
        |k: int| kernel_x(p, a[k].pos, a[k].mass as int, g, aoe2),
        |k: int| kernel_x(p, b[k].pos, b[k].mass as int, g, aoe2),
    );
    lemma_sum_split(
        a.len(),
        b.len(),
        |k: int| kernel_y(p, s[k].pos, s[k].mass as int, g, aoe2),
        |k: int| kernel_y(p, a[k].pos, a[k].mass as int, g, aoe2),
        |k: int| kernel_y(p, b[k].pos, b[k].mass as int, g, aoe2),
    );
}

/// The total force on a particle at `pos` from the weighted points `pts`
/// under the coefficient `g`.
pub fn sum_forces(pos: &Vec2, pts: &Vec<WeightedPoint>, g: i64, aoe2: i64) -> (f: Force)
    requires
        pos.in_range(),
        in_range(g as int),
        forall|k: int| 0 <= k < pts@.len() ==> (#[trigger] pts@[k]).pos.in_range(),
        mass_of(pts@) <= u32::MAX,
    ensures
        f.x == points_force_x(pts@, *pos, g as int, aoe2 as int),
        f.y == points_force_y(pts@, *pos, g as int, aoe2 as int),
{
    let ghost fx = |k: int| kernel_x(*pos, pts@[k].pos, pts@[k].mass as int, g as int, aoe2 as int);
    let ghost fy = |k: int| kernel_y(*pos, pts@[k].pos, pts@[k].mass as int, g as int, aoe2 as int);
    let ghost fm = |k: int| pts@[k].mass as int;
    let n: usize = pts.len();
    let mut acc: Force = Force { x: 0, y: 0 };
    let mut i: usize = 0;
    while i < n
        invariant
            i <= n,
            n == pts@.len(),
            pos.in_range(),
            in_range(g as int),
            forall|k: int| 0 <= k < pts@.len() ==> (#[trigger] pts@[k]).pos.in_range(),
            sum_to(n as nat, fm) <= u32::MAX,
            fx == |k: int| kernel_x(*pos, pts@[k].pos, pts@[k].mass as int, g as int, aoe2 as int),
            fy == |k: int| kernel_y(*pos, pts@[k].pos, pts@[k].mass as int, g as int, aoe2 as int),
            fm == |k: int| pts@[k].mass as int,
            acc.x == sum_to(i as nat, fx),
            acc.y == sum_to(i as nat, fy),
            magnitude(acc.x as int) <= LIMIT * sum_to(i as nat, fm),
            magnitude(acc.y as int) <= LIMIT * sum_to(i as nat, fm),
        decreases n - i,
    {
        let w: WeightedPoint = pts[i];
        let part: Force = kernel(pos, &w.pos, w.mass, g, aoe2);
        proof {
            lemma_kernel_bound(*pos, w.pos, w.mass as int, g as int, aoe2 as int);
            lemma_sum_prefix(i as nat, n as nat, fm);
            lemma_sum_prefix((i + 1) as nat, n as nat, fm);
            let before = sum_to(i as nat, fm);
            let m = w.mass as int;
            let a = magnitude(g as int);
            assert(sum_to((i + 1) as nat, fm) == before + m);
            assert(a * m <= LIMIT * m && LIMIT * (before + m) == LIMIT * before + LIMIT * m
                && LIMIT * (before + m) <= LIMIT * 0xffff_ffff) by (nonlinear_arith)
                requires
                    0 <= a <= LIMIT,
                    m >= 0,
                    before >= 0,
                    before + m <= 0xffff_ffff,
            ;
        }
        acc = Force { x: acc.x + part.x, y: acc.y + part.y };
        i += 1;
    }
    acc
}

impl QuadTree {
    /// The x coordinate of the force of the whole tree on a particle at `p`,
    /// as the Barnes-Hut approximation gives it.
    pub open spec fn force_x(self, p: Vec2, g: int, aoe2: int, theta: int) -> int {
        points_force_x(flat(self.points_for(p, aoe2, theta)), p, g, aoe2)
    }

    /// The y coordinate of the force of the whole tree on a particle at `p`,
    /// as the Barnes-Hut approximation gives it.
    pub open spec fn force_y(self, p: Vec2, g: int, aoe2: int, theta: int) -> int {
        points_force_y(flat(self.points_for(p, aoe2, theta)), p, g, aoe2)
    }

    /// The force of a measured tree is no larger, coordinate by coordinate,
    /// than the coefficient times the mass of the tree.
    pub proof fn lemma_force_bound(self, p: Vec2, g: int, aoe2: int, theta: int)
        requires
            self.is_measured(),
            self.mass() <= u32::MAX,
        ensures
            magnitude(self.force_x(p, g, aoe2, theta)) <= magnitude(g) * self.mass(),
            magnitude(self.force_y(p, g, aoe2, theta)) <= magnitude(g) * self.mass(),
    {
        let pts = flat(self.points_for(p, aoe2, theta));
        self.lemma_points_mass(p, aoe2, theta);
        lemma_points_force_bound(pts, p, g, aoe2);
        let a = magnitude(g);
        let (m, t) = (mass_of(pts), self.mass() as int);
        assert(a * m <= a * t) by (nonlinear_arith)
            requires
                a >= 0,
                m <= t,
        ;
    }

    /// The force of the whole tree on a particle at `pos` under the
    /// coefficient `g`: the sum of the forces of the weighted points of the
    /// Barnes-Hut approximation.
    pub fn accumulate(&self, pos: &Vec2, g: i64, aoe2: i64, theta: i64) -> (f: Force)
        requires
            self.wf(),
            self.is_measured(),
            self.mass() <= u32::MAX,
            pos.in_range(),
            in_range(g as int),
        ensures
            f.x == self.force_x(*pos, g as int, aoe2 as int, theta as int),
            f.y == self.force_y(*pos, g as int, aoe2 as int, theta as int),
            magnitude(f.x as int) <= LIMIT * self.mass(),
            magnitude(f.y as int) <= LIMIT * self.mass(),
        decreases self,
    {
        proof {
            self.lemma_force_bound(*pos, g as int, aoe2 as int, theta as int);
            let a = magnitude(g as int);
            let m = self.mass() as int;
            assert(a * m <= LIMIT * m) by (nonlinear_arith)
                requires
                    0 <= a <= LIMIT,
                    m >= 0,
            ;
            reveal_with_fuel(sum_to, 2);
        }
        let ghost answer = flat(self.points_for(*pos, aoe2 as int, theta as int));
        match self {
            QuadTree::Empty { .. } => {
                proof {
                    assert(answer =~= Seq::empty());
                }
                Force { x: 0, y: 0 }
            },
            QuadTree::External { point, .. } => {
                if !within(pos.distance_squared(&point.pos), aoe2) {
                    proof {
                        assert(answer =~= Seq::empty());
                    }
                    return Force { x: 0, y: 0 };
                }
                proof {
                    assert(answer =~= seq![*point]);
                }
                kernel(pos, &point.pos, point.mass, g, aoe2)
            },
            QuadTree::Internal { boundary, first, second, third, fourth, cm } => {
                let d2: u128 = pos.distance_squared(&cm.pos);
                if !within(d2, aoe2) {
                    proof {
                        assert(answer =~= Seq::empty());
                    }
                    return Force { x: 0, y: 0 };
                }
                if small_enough(boundary.width(), d2, theta) {
                    proof {
                        assert(answer =~= seq![*cm]);
                    }
                    return kernel(pos, &cm.pos, cm.mass, g, aoe2);
                }
                let a: Force = first.accumulate(pos, g, aoe2, theta);
                let b: Force = second.accumulate(pos, g, aoe2, theta);
                let c: Force = third.accumulate(pos, g, aoe2, theta);
                let d: Force = fourth.accumulate(pos, g, aoe2, theta);
                proof {
                    let (q, r, t) = (*pos, aoe2 as int, theta as int);
                    let (sa, sb, sc, sd) = (
                        flat(first.points_for(q, r, t)),
                        flat(second.points_for(q, r, t)),
                        flat(third.points_for(q, r, t)),
                        flat(fourth.points_for(q, r, t)),
                    );
                    lemma_points_force_concat(sa, sb, q, g as int, r);
                    lemma_points_force_concat(sa + sb, sc, q, g as int, r);
                    lemma_points_force_concat(sa + sb + sc, sd, q, g as int, r);
                    let (ma, mb, mc, md) = (
                        first.mass() as int,
                        second.mass() as int,
                        third.mass() as int,
                        fourth.mass() as int,
                    );
                    assert(LIMIT * (ma + mb + mc + md) == LIMIT * ma + LIMIT * mb + LIMIT * mc
                        + LIMIT * md && LIMIT * (ma + mb + mc + md) <= LIMIT * 0xffff_ffff)
                        by (nonlinear_arith)
                        requires
                            ma + mb + mc + md <= 0xffff_ffff,
                    ;
                }
                Force { x: a.x + b.x + c.x + d.x, y: a.y + b.y + c.y + d.y }
            },
        }
    }
}

} // verus!
