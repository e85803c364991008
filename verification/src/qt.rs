//! The Barnes-Hut quadtree over the points of one culture.
//!
//! A tree covers a rectangle. A node is empty, holds one weighted point, or has
//! four children that cover the four quadrants of its rectangle. Below
//! `MAX_DEPTH` levels a rectangle is not divided again: further points that
//! fall into an occupied leaf there are merged into it by raising its mass.

use crate::fixed::{div_trunc, lemma_trunc_div_bounds, magnitude, trunc_div, LIMIT};
use crate::vector::Vec2;
use vstd::prelude::*;

verus! {

/// Number of levels below the root at which rectangles are no longer divided.
pub const MAX_DEPTH: u8 = 8;

/// The point halfway from `a` to `b`, rounded toward `a`.
pub open spec fn midpoint(a: int, b: int) -> int {
    a + trunc_div(b - a, 2)
}

/// The midpoint lies between its ends.
pub proof fn lemma_midpoint_between(a: int, b: int)
    ensures
        a <= b ==> a <= midpoint(a, b) <= b,
        b <= a ==> b <= midpoint(a, b) <= a,
{
    lemma_trunc_div_bounds(b - a, 2);
}

fn mid(a: i64, b: i64) -> (m: i64)
    ensures
        m == midpoint(a as int, b as int),
{
    proof {
        lemma_midpoint_between(a as int, b as int);
    }
    let d: i128 = b as i128 - a as i128;
    (a as i128 + div_trunc(d, 2)) as i64
}

/// An axis-aligned rectangle with its center.
#[derive(Clone, Copy, Debug, PartialEq, Eq, Structural)]
pub struct Rect {
    pub start: Vec2,
    pub center: Vec2,
    pub end: Vec2,
}

impl Rect {
    /// The rectangle from `start` to `end`.
    pub open spec fn spec_new(start: Vec2, end: Vec2) -> Rect {
        Rect {
            start,
            center: Vec2 {
                x: midpoint(start.x as int, end.x as int) as i64,
                y: midpoint(start.y as int, end.y as int) as i64,
            },
            end,
        }
    }

    /// The corners are storable and in order, and the center is their midpoint.
    pub open spec fn wf(self) -> bool {
        &&& self.start.in_range()
        &&& self.end.in_range()
        &&& self.start.x <= self.end.x
        &&& self.start.y <= self.end.y
        &&& self == Rect::spec_new(self.start, self.end)
    }

    /// `p` lies in the closed rectangle.
    pub open spec fn has(self, p: Vec2) -> bool {
        &&& self.start.x <= p.x <= self.end.x
        &&& self.start.y <= p.y <= self.end.y
    }

    /// A quarter of the perimeter: the mean of the two side lengths.
    pub open spec fn spec_width(self) -> int {
        trunc_div(2 * (self.end.x - self.start.x) + 2 * (self.end.y - self.start.y), 4)
    }

    /// The quadrant with index `k`: low x and low y, high x and low y, low x and
    /// high y, high x and high y. Neighbouring quadrants share their edge.
    pub open spec fn quadrant(self, k: int) -> Rect {
        if k == 0 {
            Rect::spec_new(self.start, self.center)
        } else if k == 1 {
            Rect::spec_new(
                Vec2 { x: self.center.x, y: self.start.y },
                Vec2 { x: self.end.x, y: self.center.y },
            )
        } else if k == 2 {
            Rect::spec_new(
                Vec2 { x: self.start.x, y: self.center.y },
                Vec2 { x: self.center.x, y: self.end.y },
            )
        } else {
            Rect::spec_new(self.center, self.end)
        }
    }

    /// The center of a well-formed rectangle lies in it, its quadrants are
    /// well-formed and lie in it, and together they cover it.
    pub proof fn lemma_quadrants(self)
        requires
            self.wf(),
        ensures
            self.has(self.center),
            self.center.in_range(),
            forall|k: int| 0 <= k < 4 ==> (#[trigger] self.quadrant(k)).wf(),
            forall|k: int, p: Vec2|
                0 <= k < 4 && (#[trigger] self.quadrant(k).has(p)) ==> self.has(p),
            forall|p: Vec2|
                self.has(p) ==> self.quadrant(0).has(p) || self.quadrant(1).has(p)
                    || self.quadrant(2).has(p) || self.quadrant(3).has(p),
    {
        lemma_midpoint_between(self.start.x as int, self.end.x as int);
        lemma_midpoint_between(self.start.y as int, self.end.y as int);
        lemma_midpoint_between(self.start.x as int, self.center.x as int);
        lemma_midpoint_between(self.start.y as int, self.center.y as int);
        lemma_midpoint_between(self.center.x as int, self.end.x as int);
        lemma_midpoint_between(self.center.y as int, self.end.y as int);
        assert(self.quadrant(0).wf());
        assert(self.quadrant(1).wf());
        assert(self.quadrant(2).wf());
        assert(self.quadrant(3).wf());
    }

    /// The rectangle from `start` to `end`.
    pub fn new(start: Vec2, end: Vec2) -> (r: Rect)
        ensures
            r == Rect::spec_new(start, end),
    {
        Rect { start, center: Vec2 { x: mid(start.x, end.x), y: mid(start.y, end.y) }, end }
    }

    /// Whether `point` lies in the closed rectangle.
    pub fn contains(&self, point: &Vec2) -> (b: bool)
        ensures
            b == self.has(*point),
    {
        self.start.x <= point.x && point.x <= self.end.x && self.start.y <= point.y && point.y
            <= self.end.y
    }

    /// A quarter of the perimeter.
    pub fn width(&self) -> (w: i64)
        requires
            self.wf(),
        ensures
            w == self.spec_width(),
            0 <= w <= 2 * LIMIT,
    {
        let dx: i128 = self.end.x as i128 - self.start.x as i128;
        let dy: i128 = self.end.y as i128 - self.start.y as i128;
        proof {
            lemma_trunc_div_bounds(2 * dx + 2 * dy, 4);
            assert((2 * dx + 2 * dy) / 4 <= 2 * LIMIT);
        }
        div_trunc(dx * 2 + dy * 2, 4) as i64
    }
}

/// A point that stands for `mass` particles.
#[derive(Clone, Copy, Debug, PartialEq, Eq, Structural)]
pub struct WeightedPoint {
    pub pos: Vec2,
    pub mass: u32,
}

impl WeightedPoint {
    /// The point at `pos` with the given mass.
    pub fn new(pos: Vec2, mass: u32) -> (w: WeightedPoint)
        ensures
            w == (WeightedPoint { pos, mass }),
    {
        WeightedPoint { pos, mass }
    }

    /// The massless point at the origin.
    pub open spec fn spec_default() -> WeightedPoint {
        WeightedPoint { pos: Vec2 { x: 0, y: 0 }, mass: 0 }
    }
}

impl Default for WeightedPoint {
    fn default() -> (w: WeightedPoint)
        ensures
            w == WeightedPoint::spec_default(),
    {
        WeightedPoint { pos: Vec2 { x: 0, y: 0 }, mass: 0 }
    }
}

/// A quadtree node.
#[derive(Debug)]
pub enum QuadTree {
    /// A divided rectangle: one child per quadrant, and the center of mass of
    /// all points below as of the last `measure_nodes`.
    Internal {
        boundary: Rect,
        first: Box<QuadTree>,
        second: Box<QuadTree>,
        third: Box<QuadTree>,
        fourth: Box<QuadTree>,
        cm: WeightedPoint,
    },
    /// A rectangle that holds one weighted point.
    External { boundary: Rect, point: WeightedPoint },
    /// A rectangle that holds nothing.
    Empty { boundary: Rect },
}

impl QuadTree {
    /// The rectangle that the node covers.
    pub open spec fn spec_boundary(self) -> Rect {
        match self {
            QuadTree::Internal { boundary, .. } => boundary,
            QuadTree::External { boundary, .. } => boundary,
            QuadTree::Empty { boundary } => boundary,
        }
    }

    /// Rectangles are well-formed, children cover the quadrants of their
    /// parent, leaf points lie in their rectangle and have mass, and stored
    /// centers of mass are storable.
    pub open spec fn wf(self) -> bool
        decreases self,
    {
        match self {
            QuadTree::Internal { boundary, first, second, third, fourth, cm } => {
                &&& boundary.wf()
                &&& cm.pos.in_range()
                &&& first.spec_boundary() == boundary.quadrant(0)
                &&& second.spec_boundary() == boundary.quadrant(1)
                &&& third.spec_boundary() == boundary.quadrant(2)
                &&& fourth.spec_boundary() == boundary.quadrant(3)
                &&& first.wf()
                &&& second.wf()
                &&& third.wf()
                &&& fourth.wf()
            },
            QuadTree::External { boundary, point } => {
                &&& boundary.wf()
                &&& boundary.has(point.pos)
                &&& point.mass >= 1
            },
            QuadTree::Empty { boundary } => boundary.wf(),
        }
    }

    /// The node stands `depth` levels below a root and respects the depth
    /// limit: nothing is divided at `MAX_DEPTH`, and nothing is merged above it.
    pub open spec fn fits(self, depth: nat) -> bool
        decreases self,
    {
        match self {
            QuadTree::Internal { first, second, third, fourth, .. } => {
                &&& depth < MAX_DEPTH
                &&& first.fits(depth + 1)
                &&& second.fits(depth + 1)
                &&& third.fits(depth + 1)
                &&& fourth.fits(depth + 1)
            },
            QuadTree::External { point, .. } => depth < MAX_DEPTH ==> point.mass == 1,
            QuadTree::Empty { .. } => true,
        }
    }

    /// Number of particles that the leaves stand for.
    pub open spec fn mass(self) -> nat
        decreases self,
    {
        match self {
            QuadTree::Internal { first, second, third, fourth, .. } => first.mass()
                + second.mass() + third.mass() + fourth.mass(),
            QuadTree::External { point, .. } => point.mass as nat,
            QuadTree::Empty { .. } => 0,
        }
    }

    /// The leaf points, quadrant by quadrant.
    pub open spec fn leaves(self) -> Seq<WeightedPoint>
        decreases self,
    {
        match self {
            QuadTree::Internal { first, second, third, fourth, .. } => first.leaves()
                + second.leaves() + third.leaves() + fourth.leaves(),
            QuadTree::External { point, .. } => seq![point],
            QuadTree::Empty { .. } => Seq::empty(),
        }
    }

    /// The undivided, empty node over `boundary`.
    pub open spec fn spec_empty(boundary: Rect) -> QuadTree {
        QuadTree::Empty { boundary }
    }

    /// The division of `boundary` into four empty quadrants.
    pub open spec fn spec_split(boundary: Rect) -> QuadTree {
        QuadTree::Internal {
            boundary,
            first: Box::new(QuadTree::Empty { boundary: boundary.quadrant(0) }),
            second: Box::new(QuadTree::Empty { boundary: boundary.quadrant(1) }),
            third: Box::new(QuadTree::Empty { boundary: boundary.quadrant(2) }),
            fourth: Box::new(QuadTree::Empty { boundary: boundary.quadrant(3) }),
            cm: WeightedPoint::spec_default(),
        }
    }

    /// The tree after `p` is offered to a node `depth` levels below the root,
    /// and whether the node took it.
    ///
    /// A node takes exactly the points of its rectangle. An empty node becomes
    /// a leaf of mass one. A leaf at `MAX_DEPTH` gains one unit of mass and
    /// keeps its position; a leaf above is divided, its point goes to the first
    /// quadrant that takes it, and so does `p` after it.
    pub open spec fn inserted(self, p: Vec2, depth: nat) -> (QuadTree, bool)
        decreases MAX_DEPTH - depth, 1nat,
    {
        match self {
            QuadTree::Empty { boundary } => {
                if boundary.has(p) {
                    (
                        QuadTree::External { boundary, point: WeightedPoint { pos: p, mass: 1 } },
                        true,
                    )
                } else {
                    (self, false)
                }
            },
            QuadTree::External { boundary, point } => {
                if !boundary.has(p) {
                    (self, false)
                } else if depth >= MAX_DEPTH {
                    (
                        QuadTree::External {
                            boundary,
                            point: WeightedPoint { pos: point.pos, mass: (point.mass + 1) as u32 },
                        },
                        true,
                    )
                } else {
                    let (divided, kept) = QuadTree::spec_split(boundary).placed(point.pos, depth);
                    if kept {
                        divided.placed(p, depth)
                    } else {
                        (self, false)
                    }
                }
            },
            QuadTree::Internal { boundary, .. } => {
                if !boundary.has(p) || depth >= MAX_DEPTH {
                    (self, false)
                } else {
                    self.placed(p, depth)
                }
            },
        }
    }

    /// The divided node after `p` is offered to its children in order, and
    /// whether one of them took it.
    pub open spec fn placed(self, p: Vec2, depth: nat) -> (QuadTree, bool)
        decreases MAX_DEPTH - depth, 0nat,
    {
        match self {
            QuadTree::Internal { boundary, first, second, third, fourth, cm } => {
                if depth >= MAX_DEPTH {
                    (self, false)
                } else {
                    let (t0, ok0) = first.inserted(p, depth + 1);
                    let (t1, ok1) = second.inserted(p, depth + 1);
                    let (t2, ok2) = third.inserted(p, depth + 1);
                    let (t3, ok3) = fourth.inserted(p, depth + 1);
                    if ok0 {
                        (
                            QuadTree::Internal {
                                boundary,
                                first: Box::new(t0),
                                second,
                                third,
                                fourth,
                                cm,
                            },
                            true,
                        )
                    } else if ok1 {
                        (
                            QuadTree::Internal {
                                boundary,
                                first,
                                second: Box::new(t1),
                                third,
                                fourth,
                                cm,
                            },
                            true,
                        )
                    } else if ok2 {
                        (
                            QuadTree::Internal {
                                boundary,
                                first,
                                second,
                                third: Box::new(t2),
                                fourth,
                                cm,
                            },
                            true,
                        )
                    } else if ok3 {
                        (
                            QuadTree::Internal {
                                boundary,
                                first,
                                second,
                                third,
                                fourth: Box::new(t3),
                                cm,
                            },
                            true,
                        )
                    } else {
                        (self, false)
                    }
                }
            },
            _ => (self, false),
        }
    }

    /// The empty tree over the world from the origin to `world`.
    pub fn new(world: Vec2) -> (t: QuadTree)
        ensures
            t == QuadTree::spec_empty(Rect::spec_new(Vec2 { x: 0, y: 0 }, world)),
    {
        QuadTree::Empty { boundary: Rect::new(Vec2 { x: 0, y: 0 }, world) }
    }

    /// The rectangle that the node covers.
    pub fn boundary(&self) -> (b: &Rect)
        ensures
            *b == self.spec_boundary(),
    {
        match self {
            QuadTree::Empty { boundary } => boundary,
            QuadTree::External { boundary, .. } => boundary,
            QuadTree::Internal { boundary, .. } => boundary,
        }
    }

    /// The center of the node's rectangle.
    pub fn center(&self) -> (c: &Vec2)
        ensures
            *c == self.spec_boundary().center,
    {
        &self.boundary().center
    }

    /// The division of the node's rectangle into four empty quadrants.
    pub fn subdivide(&self) -> (t: QuadTree)
        ensures
            t == QuadTree::spec_split(self.spec_boundary()),
    {
        let b: Rect = *self.boundary();
        QuadTree::Internal {
            boundary: b,
            first: Box::new(QuadTree::Empty { boundary: Rect::new(b.start, b.center) }),
            second: Box::new(
                QuadTree::Empty {
                    boundary: Rect::new(
                        Vec2 { x: b.center.x, y: b.start.y },
                        Vec2 { x: b.end.x, y: b.center.y },
                    ),
                },
            ),
            third: Box::new(
                QuadTree::Empty {
                    boundary: Rect::new(
                        Vec2 { x: b.start.x, y: b.center.y },
                        Vec2 { x: b.center.x, y: b.end.y },
                    ),
                },
            ),
            fourth: Box::new(QuadTree::Empty { boundary: Rect::new(b.center, b.end) }),
            cm: WeightedPoint { pos: Vec2 { x: 0, y: 0 }, mass: 0 },
        }
    }
}

impl QuadTree {
    /// A freshly divided rectangle is a well-formed node without mass.
    pub proof fn lemma_split(boundary: Rect, depth: nat)
        requires
            boundary.wf(),
            depth < MAX_DEPTH,
        ensures
            QuadTree::spec_split(boundary).wf(),
            QuadTree::spec_split(boundary).fits(depth),
            QuadTree::spec_split(boundary).mass() == 0,
            QuadTree::spec_split(boundary).leaves() =~= Seq::empty(),
    {
        boundary.lemma_quadrants();
        reveal_with_fuel(QuadTree::wf, 2);
        reveal_with_fuel(QuadTree::fits, 2);
        reveal_with_fuel(QuadTree::mass, 2);
        reveal_with_fuel(QuadTree::leaves, 2);
    }

    /// Offering a point to a well-formed node leaves it well-formed over the
    /// same rectangle. The node takes the point exactly if the point lies in
    /// its rectangle; its mass then grows by one, and otherwise nothing changes.
    pub proof fn lemma_inserted(self, p: Vec2, depth: nat)
        requires
            self.wf(),
            self.fits(depth),
            self.mass() < u32::MAX,
        ensures
            self.inserted(p, depth).0.wf(),
            self.inserted(p, depth).0.fits(depth),
            self.inserted(p, depth).0.spec_boundary() == self.spec_boundary(),
            self.inserted(p, depth).1 == self.spec_boundary().has(p),
            self.inserted(p, depth).1 ==> self.inserted(p, depth).0.mass() == self.mass() + 1,
            !self.inserted(p, depth).1 ==> self.inserted(p, depth).0 == self,
        decreases MAX_DEPTH - depth, 1nat,
    {
        match self {
            QuadTree::Empty { boundary } => {},
            QuadTree::External { boundary, point } => {
                if boundary.has(p) && depth < MAX_DEPTH {
                    let split = QuadTree::spec_split(boundary);
                    QuadTree::lemma_split(boundary, depth);
                    split.lemma_placed(point.pos, depth);
                    let divided = split.placed(point.pos, depth).0;
                    divided.lemma_placed(p, depth);
                }
            },
            QuadTree::Internal { boundary, .. } => {
                if boundary.has(p) {
                    self.lemma_placed(p, depth);
                }
            },
        }
    }

    /// Offering a point of its rectangle to a well-formed divided node puts it
    /// into one child and leaves the node well-formed.
    pub proof fn lemma_placed(self, p: Vec2, depth: nat)
        requires
            self is Internal,
            self.wf(),
            self.fits(depth),
            self.mass() < u32::MAX,
            self.spec_boundary().has(p),
        ensures
            self.placed(p, depth).1,
            self.placed(p, depth).0 is Internal,
            self.placed(p, depth).0.wf(),
            self.placed(p, depth).0.fits(depth),
            self.placed(p, depth).0.spec_boundary() == self.spec_boundary(),
            self.placed(p, depth).0.mass() == self.mass() + 1,
        decreases MAX_DEPTH - depth, 0nat,
    {
        match self {
            QuadTree::Internal { boundary, first, second, third, fourth, cm } => {
                boundary.lemma_quadrants();
                first.lemma_inserted(p, depth + 1);
                second.lemma_inserted(p, depth + 1);
                third.lemma_inserted(p, depth + 1);
                fourth.lemma_inserted(p, depth + 1);
            },
            _ => {},
        }
    }

    /// Offers `point` to the node, which stands `depth` levels below the root;
    /// says whether the node took it.
    pub fn insert(&mut self, point: &Vec2, depth: u8) -> (ok: bool)
        requires
            old(self).wf(),
            old(self).fits(depth as nat),
            old(self).mass() < u32::MAX,
        ensures
            *final(self) == old(self).inserted(*point, depth as nat).0,
            ok == old(self).inserted(*point, depth as nat).1,
            ok == old(self).spec_boundary().has(*point),
            final(self).wf(),
            final(self).fits(depth as nat),
            final(self).spec_boundary() == old(self).spec_boundary(),
            final(self).mass() == old(self).mass() + if ok { 1nat } else { 0nat },
        decreases MAX_DEPTH - depth, 1nat,
    {
        proof {
            old(self).lemma_inserted(*point, depth as nat);
        }
        match self {
            QuadTree::Empty { boundary } => {
                if !boundary.contains(point) {
                    return false;
                }
                let b: Rect = *boundary;
                *self = QuadTree::External { boundary: b, point: WeightedPoint::new(*point, 1) };
                true
            },
            QuadTree::External { boundary, point: held } => {
                if !boundary.contains(point) {
                    return false;
                }
                if depth >= MAX_DEPTH {
                    held.mass = held.mass + 1;
                    return true;
                }
                let b: Rect = *boundary;
                let kept: Vec2 = held.pos;
                let mut divided: QuadTree = self.subdivide();
                proof {
                    QuadTree::lemma_split(b, depth as nat);
                    divided.lemma_placed(kept, depth as nat);
                }
                let done: bool = divided.place(&kept, depth);
                if done {
                    let ok: bool = divided.place(point, depth);
                    *self = divided;
                    ok
                } else {
                    false
                }
            },
            QuadTree::Internal { boundary, .. } => {
                if !boundary.contains(point) {
                    return false;
                }
                self.place(point, depth)
            },
        }
    }

    /// Offers `point` to the children of a divided node in order; says whether
    /// one of them took it.
    fn place(&mut self, point: &Vec2, depth: u8) -> (ok: bool)
        requires
            *old(self) is Internal,
            old(self).wf(),
            old(self).fits(depth as nat),
            old(self).mass() < u32::MAX,
        ensures
            *final(self) == old(self).placed(*point, depth as nat).0,
            ok == old(self).placed(*point, depth as nat).1,
        decreases MAX_DEPTH - depth, 0nat,
    {
        match self {
            QuadTree::Internal { first, second, third, fourth, .. } => {
                if first.insert(point, depth + 1) {
                    true
                } else if second.insert(point, depth + 1) {
                    true
                } else if third.insert(point, depth + 1) {
                    true
                } else {
                    fourth.insert(point, depth + 1)
                }
            },
            _ => false,
        }
    }
}

/// If `m * a <= total <= m * b` for a positive `m`, the truncated mean
/// `total / m` lies between `a` and `b`.
pub proof fn lemma_mean_between(total: int, m: int, a: int, b: int)
    requires
        m > 0,
        m * a <= total <= m * b,
    ensures
        a <= trunc_div(total, m) <= b,
{
    if total >= 0 {
        assert(a <= total / m <= b) by (nonlinear_arith)
            requires
                m > 0,
                m * a <= total <= m * b,
        ;
    } else {
        let n = -total;
        assert(m * (-b) == -(m * b) && m * (-a) == -(m * a)) by (nonlinear_arith);
        assert(-b <= n / m && -(n / m) >= a) by (nonlinear_arith)
            requires
                m > 0,
                n > 0,
                m * (-b) <= n <= m * (-a),
        ;
    }
}

impl QuadTree {
    /// Sum over the leaves of mass times x coordinate.
    pub open spec fn moment_x(self) -> int
        decreases self,
    {
        match self {
            QuadTree::Internal { first, second, third, fourth, .. } => first.moment_x()
                + second.moment_x() + third.moment_x() + fourth.moment_x(),
            QuadTree::External { point, .. } => point.mass * point.pos.x,
            QuadTree::Empty { .. } => 0,
        }
    }

    /// Sum over the leaves of mass times y coordinate.
    pub open spec fn moment_y(self) -> int
        decreases self,
    {
        match self {
            QuadTree::Internal { first, second, third, fourth, .. } => first.moment_y()
                + second.moment_y() + third.moment_y() + fourth.moment_y(),
            QuadTree::External { point, .. } => point.mass * point.pos.y,
            QuadTree::Empty { .. } => 0,
        }
    }

    /// The center of mass of the leaves: their mass-weighted mean position,
    /// each coordinate rounded toward zero, with their total mass.
    pub open spec fn centroid(self) -> WeightedPoint {
        WeightedPoint {
            pos: Vec2 {
                x: trunc_div(self.moment_x(), self.mass() as int) as i64,
                y: trunc_div(self.moment_y(), self.mass() as int) as i64,
            },
            mass: self.mass() as u32,
        }
    }

    /// The one weighted point that stands for the whole node, if it has mass.
    pub open spec fn summary(self) -> Option<WeightedPoint> {
        match self {
            QuadTree::Internal { .. } => if self.mass() > 0 {
                Some(self.centroid())
            } else {
                None
            },
            QuadTree::External { point, .. } => Some(point),
            QuadTree::Empty { .. } => None,
        }
    }

    /// The same tree with the center of mass of every divided node set to the
    /// centroid of the leaves below it, and to the massless point at the origin
    /// where there are none.
    pub open spec fn measured(self) -> QuadTree
        decreases self,
    {
        match self {
            QuadTree::Internal { boundary, first, second, third, fourth, cm } => QuadTree::Internal {
                boundary,
                first: Box::new(first.measured()),
                second: Box::new(second.measured()),
                third: Box::new(third.measured()),
                fourth: Box::new(fourth.measured()),
                cm: if self.mass() > 0 {
                    self.centroid()
                } else {
                    WeightedPoint::spec_default()
                },
            },
            _ => self,
        }
    }

    /// Every divided node stores the centroid of its leaves, or the massless
    /// point at the origin where it has none.
    pub open spec fn is_measured(self) -> bool
        decreases self,
    {
        match self {
            QuadTree::Internal { first, second, third, fourth, cm, .. } => {
                &&& cm == if self.mass() > 0 {
                    self.centroid()
                } else {
                    WeightedPoint::spec_default()
                }
                &&& first.is_measured()
                &&& second.is_measured()
                &&& third.is_measured()
                &&& fourth.is_measured()
            },
            _ => true,
        }
    }

    /// The moments of a well-formed node lie between its mass times the low
    /// and the high corner of its rectangle.
    pub proof fn lemma_moment_bounds(self)
        requires
            self.wf(),
        ensures
            self.mass() * self.spec_boundary().start.x <= self.moment_x() <= self.mass()
                * self.spec_boundary().end.x,
            self.mass() * self.spec_boundary().start.y <= self.moment_y() <= self.mass()
                * self.spec_boundary().end.y,
        decreases self,
    {
        match self {
            QuadTree::Internal { boundary, first, second, third, fourth, .. } => {
                boundary.lemma_quadrants();
                first.lemma_moment_bounds();
                second.lemma_moment_bounds();
                third.lemma_moment_bounds();
                fourth.lemma_moment_bounds();
                QuadTree::lemma_widen(*first, boundary, 0);
                QuadTree::lemma_widen(*second, boundary, 1);
                QuadTree::lemma_widen(*third, boundary, 2);
                QuadTree::lemma_widen(*fourth, boundary, 3);
                let (m0, m1, m2, m3) = (
                    first.mass() as int,
                    second.mass() as int,
                    third.mass() as int,
                    fourth.mass() as int,
                );
                assert(self.mass() == m0 + m1 + m2 + m3);
                assert(self.moment_x() == first.moment_x() + second.moment_x()
                    + third.moment_x() + fourth.moment_x());
                assert(self.moment_y() == first.moment_y() + second.moment_y()
                    + third.moment_y() + fourth.moment_y());
                let (sx, sy, ex, ey) = (
                    boundary.start.x as int,
                    boundary.start.y as int,
                    boundary.end.x as int,
                    boundary.end.y as int,
                );
                assert((m0 + m1 + m2 + m3) * sx == m0 * sx + m1 * sx + m2 * sx + m3 * sx)
                    by (nonlinear_arith);
                assert((m0 + m1 + m2 + m3) * sy == m0 * sy + m1 * sy + m2 * sy + m3 * sy)
                    by (nonlinear_arith);
                assert((m0 + m1 + m2 + m3) * ex == m0 * ex + m1 * ex + m2 * ex + m3 * ex)
                    by (nonlinear_arith);
                assert((m0 + m1 + m2 + m3) * ey == m0 * ey + m1 * ey + m2 * ey + m3 * ey)
                    by (nonlinear_arith);
            },
            QuadTree::External { boundary, point } => {
                let m = point.mass as int;
                let (px, py) = (point.pos.x as int, point.pos.y as int);
                let (sx, sy, ex, ey) = (
                    boundary.start.x as int,
                    boundary.start.y as int,
                    boundary.end.x as int,
                    boundary.end.y as int,
                );
                assert(m * sx <= m * px <= m * ex && m * sy <= m * py <= m * ey)
                    by (nonlinear_arith)
                    requires
                        m >= 0,
                        sx <= px <= ex,
                        sy <= py <= ey,
                ;
                assert(self.mass() == m);
                assert(self.moment_x() == m * px);
                assert(self.moment_y() == m * py);
            },
            QuadTree::Empty { boundary } => {
                assert(self.mass() == 0);
                assert(0 * boundary.start.x == 0 && 0 * boundary.end.x == 0);
            },
        }
    }

    /// Bounds on the moments of a child in terms of its own rectangle hold in
    /// terms of its parent's rectangle too.
    proof fn lemma_widen(child: QuadTree, parent: Rect, k: int)
        requires
            parent.wf(),
            0 <= k < 4,
            child.spec_boundary() == parent.quadrant(k),
            child.mass() * child.spec_boundary().start.x <= child.moment_x() <= child.mass()
                * child.spec_boundary().end.x,
            child.mass() * child.spec_boundary().start.y <= child.moment_y() <= child.mass()
                * child.spec_boundary().end.y,
        ensures
            child.mass() * parent.start.x <= child.moment_x() <= child.mass() * parent.end.x,
            child.mass() * parent.start.y <= child.moment_y() <= child.mass() * parent.end.y,
    {
        parent.lemma_quadrants();
        let q = parent.quadrant(k);
        assert(q.wf());
        assert(parent.has(q.start) && parent.has(q.end)) by {
            assert(q.has(q.start) && q.has(q.end));
        }
        let m = child.mass() as int;
        let (a, b, c, d) = (
            q.start.x as int,
            parent.start.x as int,
            q.end.x as int,
            parent.end.x as int,
        );
        assert(m * b <= m * a && m * c <= m * d) by (nonlinear_arith)
            requires
                m >= 0,
                b <= a,
                c <= d,
        ;
        let (a, b, c, d) = (
            q.start.y as int,
            parent.start.y as int,
            q.end.y as int,
            parent.end.y as int,
        );
        assert(m * b <= m * a && m * c <= m * d) by (nonlinear_arith)
            requires
                m >= 0,
                b <= a,
                c <= d,
        ;
    }

    /// The centroid of a well-formed node that has mass lies in its rectangle.
    pub proof fn lemma_centroid_inside(self)
        requires
            self.wf(),
            0 < self.mass() <= u32::MAX,
        ensures
            self.spec_boundary().has(self.centroid().pos),
            self.centroid().pos.in_range(),
            self.centroid().mass == self.mass(),
    {
        self.lemma_moment_bounds();
        let b = self.spec_boundary();
        assert(b.wf()) by {
            match self {
                QuadTree::Internal { .. } => {},
                QuadTree::External { .. } => {},
                QuadTree::Empty { .. } => {},
            }
        }
        lemma_mean_between(
            self.moment_x(),
            self.mass() as int,
            b.start.x as int,
            b.end.x as int,
        );
        lemma_mean_between(
            self.moment_y(),
            self.mass() as int,
            b.start.y as int,
            b.end.y as int,
        );
    }

    /// The moments of a well-formed node of at most `u32::MAX` particles are
    /// below 2^72 in magnitude.
    pub proof fn lemma_moment_magnitude(self)
        requires
            self.wf(),
            self.mass() <= u32::MAX,
        ensures
            magnitude(self.moment_x()) <= 0x1_0000_0000 * LIMIT,
            magnitude(self.moment_y()) <= 0x1_0000_0000 * LIMIT,
    {
        self.lemma_moment_bounds();
        let m = self.mass() as int;
        let b = self.spec_boundary();
        assert(b.wf()) by {
            match self {
                QuadTree::Internal { .. } => {},
                QuadTree::External { .. } => {},
                QuadTree::Empty { .. } => {},
            }
        }
        assert(-(0x1_0000_0000 * LIMIT) <= m * b.start.x && m * b.end.x <= 0x1_0000_0000 * LIMIT
            && -(0x1_0000_0000 * LIMIT) <= m * b.start.y && m * b.end.y <= 0x1_0000_0000
            * LIMIT) by (nonlinear_arith)
            requires
                0 <= m <= 0xffff_ffff,
                -LIMIT <= b.start.x <= b.end.x <= LIMIT,
                -LIMIT <= b.start.y <= b.end.y <= LIMIT,
        ;
    }

    /// Measuring changes nothing but the stored centers of mass, and leaves
    /// every one of them correct.
    pub proof fn lemma_measured(self, depth: nat)
        requires
            self.wf(),
            self.fits(depth),
            self.mass() <= u32::MAX,
        ensures
            self.measured().wf(),
            self.measured().fits(depth),
            self.measured().is_measured(),
            self.measured().spec_boundary() == self.spec_boundary(),
            self.measured().mass() == self.mass(),
            self.measured().moment_x() == self.moment_x(),
            self.measured().moment_y() == self.moment_y(),
            self.measured().leaves() == self.leaves(),
            self.measured().summary() == self.summary(),
        decreases self,
    {
        match self {
            QuadTree::Internal { boundary, first, second, third, fourth, cm } => {
                first.lemma_measured(depth + 1);
                second.lemma_measured(depth + 1);
                third.lemma_measured(depth + 1);
                fourth.lemma_measured(depth + 1);
                if self.mass() > 0 {
                    self.lemma_centroid_inside();
                }
            },
            _ => {},
        }
    }

    /// Sets the center of mass of every divided node below and returns the
    /// exact moments and the mass of the node.
    fn measure(&mut self) -> (r: (i128, i128, u64))
        requires
            old(self).wf(),
            old(self).mass() <= u32::MAX,
        ensures
            *final(self) == old(self).measured(),
            r.0 == old(self).moment_x(),
            r.1 == old(self).moment_y(),
            r.2 == old(self).mass(),
        decreases *old(self),
    {
        proof {
            old(self).lemma_moment_magnitude();
        }
        match self {
            QuadTree::Internal { boundary, first, second, third, fourth, cm } => {
                let ghost whole = *old(self);
                proof {
                    first.lemma_moment_magnitude();
                    second.lemma_moment_magnitude();
                    third.lemma_moment_magnitude();
                    fourth.lemma_moment_magnitude();
                }
                let (x0, y0, m0) = first.measure();
                let (x1, y1, m1) = second.measure();
                let (x2, y2, m2) = third.measure();
                let (x3, y3, m3) = fourth.measure();
                let m: u64 = m0 + m1 + m2 + m3;
                let mx: i128 = x0 + x1 + x2 + x3;
                let my: i128 = y0 + y1 + y2 + y3;
                if m > 0 {
                    proof {
                        whole.lemma_centroid_inside();
                    }
                    cm.pos = Vec2 {
                        x: div_trunc(mx, m as i128) as i64,
                        y: div_trunc(my, m as i128) as i64,
                    };
                    cm.mass = m as u32;
                } else {
                    *cm = WeightedPoint { pos: Vec2 { x: 0, y: 0 }, mass: 0 };
                }
                (mx, my, m)
            },
            QuadTree::External { point, .. } => {
                ((point.mass as i128) * (point.pos.x as i128), (point.mass as i128) * (
                point.pos.y as i128), point.mass as u64)
            },
            QuadTree::Empty { .. } => (0, 0, 0),
        }
    }

    /// Sets the center of mass of every divided node to the mass-weighted mean
    /// of the leaf points below it, and returns the point that stands for the
    /// whole node, if it has mass.
    pub fn measure_nodes(&mut self) -> (r: Option<WeightedPoint>)
        requires
            old(self).wf(),
            old(self).mass() <= u32::MAX,
        ensures
            *final(self) == old(self).measured(),
            r == old(self).summary(),
    {
        let (_mx, _my, m) = self.measure();
        match self {
            QuadTree::Internal { cm, .. } => {
                if m > 0 {
                    Some(*cm)
                } else {
                    None
                }
            },
            QuadTree::External { point, .. } => Some(*point),
            QuadTree::Empty { .. } => None,
        }
    }
}

impl QuadTree {
    /// The rectangles of the node and of all nodes below it: the node first,
    /// then its children in order.
    pub open spec fn outlines(self) -> Seq<Rect>
        decreases self,
    {
        match self {
            QuadTree::Internal { boundary, first, second, third, fourth, .. } => seq![boundary]
                + first.outlines() + second.outlines() + third.outlines() + fourth.outlines(),
            QuadTree::External { boundary, .. } => seq![boundary],
            QuadTree::Empty { boundary } => seq![boundary],
        }
    }

    /// The rectangles that a host strokes to show the tree.
    pub fn render(&self) -> (out: Vec<Rect>)
        ensures
            out@ == self.outlines(),
        decreases self,
    {
        let mut out: Vec<Rect> = Vec::new();
        match self {
            QuadTree::Internal { boundary, first, second, third, fourth, .. } => {
                out.push(*boundary);
                let mut a = first.render();
                let mut b = second.render();
                let mut c = third.render();
                let mut d = fourth.render();
                out.append(&mut a);
                out.append(&mut b);
                out.append(&mut c);
                out.append(&mut d);
                proof {
                    assert(out@ =~= self.outlines());
                }
            },
            QuadTree::External { boundary, .. } => {
                out.push(*boundary);
                proof {
                    assert(out@ =~= self.outlines());
                }
            },
            QuadTree::Empty { boundary } => {
                out.push(*boundary);
                proof {
                    assert(out@ =~= self.outlines());
                }
            },
        }
        out
    }
}

} // verus!
