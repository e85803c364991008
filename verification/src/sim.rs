//! The world: cultures, their gravity mesh, and the tick.

use crate::config::SimConfig;
use crate::culture::{
    all_storable, built, lemma_built, pairwise_force_x, pairwise_force_y, sum_pairwise, Culture,
};
use crate::fixed::{div_trunc, in_range, magnitude, saturate, saturated, trunc_div, LIMIT};
use crate::kernel::{kernel_x, kernel_y, lemma_kernel_bound};
use crate::particle::{cursor_coefficient, stepped, Mouse, Particle};
use crate::sums::sum_to;
use crate::vector::{Force, Vec2};
use vstd::prelude::*;

verus! {

/// A table of forces has `c` rows of `s` storable entries.
pub open spec fn tensor_wf(t: Seq<Vec<Vec2>>, c: nat, s: nat) -> bool {
    &&& t.len() == c
    &&& forall|i: int| 0 <= i < c ==> (#[trigger] t[i])@.len() == s
    &&& forall|i: int, k: int| 0 <= i < c && 0 <= k < s ==> (#[trigger] t[i]@[k]).in_range()
}

/// A mesh has `c` rows of `c` storable coefficients.
pub open spec fn mesh_wf(m: Seq<Vec<i64>>, c: nat) -> bool {
    &&& m.len() == c
    &&& forall|i: int| 0 <= i < c ==> (#[trigger] m[i])@.len() == c
    &&& forall|i: int, j: int| 0 <= i < c && 0 <= j < c ==> in_range(#[trigger] m[i]@[j] as int)
}

/// A sum of forces over `n` cultures, averaged and made storable.
pub open spec fn averaged(total: int, n: int) -> int {
    saturated(trunc_div(total, n))
}

/// A world of cultures.
#[derive(Debug)]
pub struct World {
    pub conf: SimConfig,
    pub cultures: Vec<Culture>,
    /// Row `i`, column `j`: the coefficient with which particles of culture
    /// `j` attract (or, if negative, repel) those of culture `i`.
    pub gravity_mesh: Vec<Vec<i64>>,
    /// The force on each particle from all others, as of the last computation.
    pub force_tensor: Vec<Vec<Vec2>>,
    /// The force of the pointer on each particle, as of the last computation.
    pub cursor_force_tensor: Vec<Vec<Vec2>>,
    /// Number of ticks so far, modulo 2^64.
    pub i: u64,
}

impl World {
    /// Particle `k` of culture `c`.
    pub open spec fn particle(self, c: int, k: int) -> Particle {
        self.cultures@[c].particles@[k]
    }

    /// The coefficient with which culture `j` acts on culture `c`.
    pub open spec fn coefficient(self, c: int, j: int) -> int {
        self.gravity_mesh@[c]@[j] as int
    }

    /// The configuration is valid; there are as many cultures, each of as many
    /// storable particles, as it says; the mesh is square and the two tables
    /// of forces have one storable entry for each particle.
    pub open spec fn wf(self) -> bool {
        &&& self.conf.valid()
        &&& self.cultures@.len() == self.conf.num_cultures
        &&& forall|c: int|
            0 <= c < self.cultures@.len() ==> (#[trigger] self.cultures@[c]).particles@.len()
                == self.conf.culture_size
        &&& forall|c: int|
            0 <= c < self.cultures@.len() ==> all_storable(
                (#[trigger] self.cultures@[c]).particles@,
            )
        &&& mesh_wf(self.gravity_mesh@, self.conf.num_cultures as nat)
        &&& tensor_wf(
            self.force_tensor@,
            self.conf.num_cultures as nat,
            self.conf.culture_size as nat,
        )
        &&& tensor_wf(
            self.cursor_force_tensor@,
            self.conf.num_cultures as nat,
            self.conf.culture_size as nat,
        )
    }

    /// The quadtree of every culture is the one built from its particles.
    pub open spec fn trees_ready(self) -> bool {
        forall|j: int|
            0 <= j < self.cultures@.len() ==> (#[trigger] self.cultures@[j]).qt == built(
                self.conf.bound,
                self.cultures@[j].particles@,
            )
    }

    /// Cultures of `other` have the particles and colours of this world.
    pub open spec fn same_particles(self, other: World) -> bool {
        &&& self.cultures@.len() == other.cultures@.len()
        &&& forall|c: int|
            0 <= c < self.cultures@.len() ==> (#[trigger] self.cultures@[c]).particles
                == other.cultures@[c].particles && self.cultures@[c].color
                == other.cultures@[c].color
    }

    /// The x coordinate of the sum, over all cultures, of the force of the
    /// culture's quadtree on particle `k` of culture `c`.
    pub open spec fn tree_sum_x(self, c: int, k: int) -> int {
        sum_to(
            self.cultures@.len(),
            |j: int|
                built(self.conf.bound, self.cultures@[j].particles@).force_x(
                    self.particle(c, k).pos,
                    self.coefficient(c, j),
                    self.conf.aoe2 as int,
                    self.conf.theta as int,
                ),
        )
    }

    /// The y coordinate of the sum, over all cultures, of the force of the
    /// culture's quadtree on particle `k` of culture `c`.
    pub open spec fn tree_sum_y(self, c: int, k: int) -> int {
        sum_to(
            self.cultures@.len(),
            |j: int|
                built(self.conf.bound, self.cultures@[j].particles@).force_y(
                    self.particle(c, k).pos,
                    self.coefficient(c, j),
                    self.conf.aoe2 as int,
                    self.conf.theta as int,
                ),
        )
    }

    /// The force on particle `k` of culture `c` by the Barnes-Hut
    /// approximation: the sum over all cultures, divided by their number.
    pub open spec fn tree_force(self, c: int, k: int) -> Vec2 {
        Vec2 {
            x: averaged(self.tree_sum_x(c, k), self.cultures@.len() as int) as i64,
            y: averaged(self.tree_sum_y(c, k), self.cultures@.len() as int) as i64,
        }
    }

    /// The x coordinate of the sum, over all particles of all cultures, of the
    /// force on particle `k` of culture `c`.
    pub open spec fn pair_sum_x(self, c: int, k: int) -> int {
        sum_to(
            self.cultures@.len(),
            |j: int|
                pairwise_force_x(
                    self.cultures@[j].particles@,
                    self.particle(c, k).pos,
                    self.coefficient(c, j),
                    self.conf.aoe2 as int,
                ),
        )
    }

    /// The y coordinate of the sum, over all particles of all cultures, of the
    /// force on particle `k` of culture `c`.
    pub open spec fn pair_sum_y(self, c: int, k: int) -> int {
        sum_to(
            self.cultures@.len(),
            |j: int|
                pairwise_force_y(
                    self.cultures@[j].particles@,
                    self.particle(c, k).pos,
                    self.coefficient(c, j),
                    self.conf.aoe2 as int,
                ),
        )
    }

    /// The force on particle `k` of culture `c` pair by pair: the sum over all
    /// particles, divided by the number of cultures.
    pub open spec fn pair_force(self, c: int, k: int) -> Vec2 {
        Vec2 {
            x: averaged(self.pair_sum_x(c, k), self.cultures@.len() as int) as i64,
            y: averaged(self.pair_sum_y(c, k), self.cultures@.len() as int) as i64,
        }
    }

    /// The force of the pointer on particle `k` of culture `c`.
    pub open spec fn pointer_force(self, c: int, k: int, mouse: Mouse) -> Vec2 {
        Vec2 {
            x: kernel_x(
                self.particle(c, k).pos,
                mouse.pos,
                1,
                cursor_coefficient(mouse.button, self.conf.cursor_force as int),
                self.conf.cursor_aoe2 as int,
            ) as i64,
            y: kernel_y(
                self.particle(c, k).pos,
                mouse.pos,
                1,
                cursor_coefficient(mouse.button, self.conf.cursor_force as int),
                self.conf.cursor_aoe2 as int,
            ) as i64,
        }
    }

    /// Rebuilds the quadtree of every culture from its particles.
    pub fn rebuild_trees(&mut self)
        requires
            old(self).wf(),
        ensures
            final(self).wf(),
            final(self).trees_ready(),
            final(self).same_particles(*old(self)),
            final(self).conf == old(self).conf,
            final(self).gravity_mesh == old(self).gravity_mesh,
            final(self).force_tensor == old(self).force_tensor,
            final(self).cursor_force_tensor == old(self).cursor_force_tensor,
            final(self).i == old(self).i,
    {
        let n: usize = self.cultures.len();
        let bound = self.conf.bound;
        let mut j: usize = 0;
        while j < n
            invariant
                j <= n,
                n == self.cultures@.len(),
                bound == self.conf.bound,
                self.wf(),
                self.same_particles(*old(self)),
                self.conf == old(self).conf,
                self.gravity_mesh == old(self).gravity_mesh,
                self.force_tensor == old(self).force_tensor,
                self.cursor_force_tensor == old(self).cursor_force_tensor,
                self.i == old(self).i,
                forall|a: int|
                    0 <= a < j ==> (#[trigger] self.cultures@[a]).qt == built(
                        bound,
                        self.cultures@[a].particles@,
                    ),
            decreases n - j,
        {
            assert(self.cultures@[j as int].particles@.len() == self.conf.culture_size);
            assert(self.conf.num_cultures * self.conf.culture_size >= self.conf.culture_size)
                by (nonlinear_arith)
                requires
                    self.conf.num_cultures >= 1,
            ;
            self.cultures[j].quadtree(&bound);
            j += 1;
        }
    }

    /// The force on particle `k` of culture `c` by the Barnes-Hut
    /// approximation, from the quadtrees as they stand.
    pub fn net_force(&self, c: usize, k: usize) -> (f: Vec2)
        requires
            self.wf(),
            self.trees_ready(),
            c < self.conf.num_cultures,
            k < self.conf.culture_size,
        ensures
            f == self.tree_force(c as int, k as int),
            f.in_range(),
    {
        let pos: Vec2 = self.cultures[c].particles[k].pos;
        let n: usize = self.cultures.len();
        let aoe2: i64 = self.conf.aoe2;
        let theta: i64 = self.conf.theta;
        let ghost size: int = self.conf.culture_size as int;
        let ghost fx = |j: int|
            built(self.conf.bound, self.cultures@[j].particles@).force_x(
                self.particle(c as int, k as int).pos,
                self.coefficient(c as int, j),
                self.conf.aoe2 as int,
                self.conf.theta as int,
            );
        let ghost fy = |j: int|
            built(self.conf.bound, self.cultures@[j].particles@).force_y(
                self.particle(c as int, k as int).pos,
                self.coefficient(c as int, j),
                self.conf.aoe2 as int,
                self.conf.theta as int,
            );
        let mut acc: Force = Force { x: 0, y: 0 };
        let mut j: usize = 0;
        proof {
            assert(all_storable(self.cultures@[c as int].particles@));
            assert(self.cultures@[c as int].particles@[k as int].wf());
        }
        while j < n
            invariant
                j <= n,
                n == self.cultures@.len(),
                self.wf(),
                self.trees_ready(),
                c < self.conf.num_cultures,
                k < self.conf.culture_size,
                size == self.conf.culture_size,
                aoe2 == self.conf.aoe2,
                theta == self.conf.theta,
                pos == self.particle(c as int, k as int).pos,
                pos.in_range(),
                fx == |j: int|
                    built(self.conf.bound, self.cultures@[j].particles@).force_x(
                        self.particle(c as int, k as int).pos,
                        self.coefficient(c as int, j),
                        self.conf.aoe2 as int,
                        self.conf.theta as int,
                    ),
                fy == |j: int|
                    built(self.conf.bound, self.cultures@[j].particles@).force_y(
                        self.particle(c as int, k as int).pos,
                        self.coefficient(c as int, j),
                        self.conf.aoe2 as int,
                        self.conf.theta as int,
                    ),
                acc.x == sum_to(j as nat, fx),
                acc.y == sum_to(j as nat, fy),
                magnitude(acc.x as int) <= LIMIT * (size * j),
                magnitude(acc.y as int) <= LIMIT * (size * j),
            decreases n - j,
        {
            let g: i64 = self.gravity_mesh[c][j];
            proof {
                let ps = self.cultures@[j as int].particles@;
                assert(ps.len() == size);
                lemma_crowd(self.conf.num_cultures as int, size, j as int);
                lemma_built(self.conf.bound, ps);
                assert(in_range(self.gravity_mesh@[c as int]@[j as int] as int));
                let m = self.cultures@[j as int].qt.mass() as int;
                assert(LIMIT * m <= LIMIT * size && LIMIT * (size * (j + 1)) == LIMIT * (size * j)
                    + LIMIT * size) by (nonlinear_arith)
                    requires
                        0 <= m <= size,
                ;
            }
            let part: Force = self.cultures[j].qt.accumulate(&pos, g, aoe2, theta);
            acc = Force { x: acc.x + part.x, y: acc.y + part.y };
            j += 1;
        }
        Vec2 { x: saturate(div_trunc(acc.x, n as i128)), y: saturate(div_trunc(acc.y, n as i128)) }
    }

    /// The force on particle `k` of culture `c` pair by pair.
    pub fn net_force_naive(&self, c: usize, k: usize) -> (f: Vec2)
        requires
            self.wf(),
            c < self.conf.num_cultures,
            k < self.conf.culture_size,
        ensures
            f == self.pair_force(c as int, k as int),
            f.in_range(),
    {
        let pos: Vec2 = self.cultures[c].particles[k].pos;
        let n: usize = self.cultures.len();
        let aoe2: i64 = self.conf.aoe2;
        let ghost size: int = self.conf.culture_size as int;
        let ghost fx = |j: int|
            pairwise_force_x(
                self.cultures@[j].particles@,
                self.particle(c as int, k as int).pos,
                self.coefficient(c as int, j),
                self.conf.aoe2 as int,
            );
        let ghost fy = |j: int|
            pairwise_force_y(
                self.cultures@[j].particles@,
                self.particle(c as int, k as int).pos,
                self.coefficient(c as int, j),
                self.conf.aoe2 as int,
            );
        let mut acc: Force = Force { x: 0, y: 0 };
        let mut j: usize = 0;
        proof {
            assert(all_storable(self.cultures@[c as int].particles@));
            assert(self.cultures@[c as int].particles@[k as int].wf());
        }
        while j < n
            invariant
                j <= n,
                n == self.cultures@.len(),
                self.wf(),
                c < self.conf.num_cultures,
                k < self.conf.culture_size,
                size == self.conf.culture_size,
                aoe2 == self.conf.aoe2,
                pos == self.particle(c as int, k as int).pos,
                pos.in_range(),
                fx == |j: int|
                    pairwise_force_x(
                        self.cultures@[j].particles@,
                        self.particle(c as int, k as int).pos,
                        self.coefficient(c as int, j),
                        self.conf.aoe2 as int,
                    ),
                fy == |j: int|
                    pairwise_force_y(
                        self.cultures@[j].particles@,
                        self.particle(c as int, k as int).pos,
                        self.coefficient(c as int, j),
                        self.conf.aoe2 as int,
                    ),
                acc.x == sum_to(j as nat, fx),
                acc.y == sum_to(j as nat, fy),
                magnitude(acc.x as int) <= LIMIT * (size * j),
                magnitude(acc.y as int) <= LIMIT * (size * j),
            decreases n - j,
        {
            let g: i64 = self.gravity_mesh[c][j];
            proof {
                let ps = self.cultures@[j as int].particles@;
                assert(ps.len() == size);
                assert(all_storable(ps));
                lemma_crowd(self.conf.num_cultures as int, size, j as int);
                assert(in_range(self.gravity_mesh@[c as int]@[j as int] as int));
                assert(LIMIT * (size * (j + 1)) == LIMIT * (size * j) + LIMIT * size)
                    by (nonlinear_arith);
            }
            let part: Force = sum_pairwise(&pos, &self.cultures[j].particles, g, aoe2);
            acc = Force { x: acc.x + part.x, y: acc.y + part.y };
            j += 1;
        }
        Vec2 { x: saturate(div_trunc(acc.x, n as i128)), y: saturate(div_trunc(acc.y, n as i128)) }
    }
}

/// In a world of at most `u32::MAX` particles, the particles of the first
/// `j + 1` cultures are at most `u32::MAX` too, and so are those of one culture.
pub proof fn lemma_crowd(cultures: int, size: int, j: int)
    requires
        0 <= j < cultures,
        size >= 0,
        cultures * size <= u32::MAX,
    ensures
        size <= u32::MAX,
        0 <= size * j,
        size * (j + 1) <= u32::MAX,
        LIMIT * (size * (j + 1)) <= LIMIT * 0xffff_ffff,
{
    assert(size * (j + 1) <= cultures * size && size * j >= 0 && size <= size * (j + 1))
        by (nonlinear_arith)
        requires
            0 <= j < cultures,
            size >= 0,
    ;
    let t = size * (j + 1);
    assert(LIMIT * t <= LIMIT * 0xffff_ffff) by (nonlinear_arith)
        requires
            t <= 0xffff_ffff,
    ;
}

/// The pointer with its position brought into the storable range.
pub open spec fn storable_mouse(mouse: Mouse) -> Mouse {
    Mouse {
        button: mouse.button,
        pos: Vec2 {
            x: saturated(mouse.pos.x as int) as i64,
            y: saturated(mouse.pos.y as int) as i64,
        },
    }
}

impl World {
    /// The force on particle `k` of culture `c` from all particles: pair by
    /// pair, or by the Barnes-Hut approximation.
    pub open spec fn force_by(self, pairwise: bool, c: int, k: int) -> Vec2 {
        if pairwise {
            self.pair_force(c, k)
        } else {
            self.tree_force(c, k)
        }
    }

    /// The force under which particle `k` of culture `c` moves in a tick: the
    /// force from all particles, by the way of computing that the
    /// configuration names, plus the force of the pointer if the world is
    /// interactive, and the stored cursor force if it is not.
    pub open spec fn tick_force(self, c: int, k: int, mouse: Mouse) -> Vec2 {
        crate::culture::both(
            self.force_by(self.conf.gpu, c, k),
            if self.conf.is_interactive {
                self.pointer_force(c, k, storable_mouse(mouse))
            } else {
                self.cursor_force_tensor@[c]@[k]
            },
        )
    }

    /// Particle `k` of culture `c` after a tick of length `tau`.
    pub open spec fn after_tick(self, c: int, k: int, tau: int, mouse: Mouse) -> Particle {
        stepped(
            self.particle(c, k),
            self.tick_force(c, k, mouse),
            self.conf.damping as int,
            saturated(tau),
            self.conf.bound.end,
        )
    }

    /// The forces on a particle depend on the configuration, the mesh and the
    /// particles alone.
    pub proof fn lemma_forces_frame(self, other: World, c: int, k: int)
        requires
            self.same_particles(other),
            self.conf == other.conf,
            self.gravity_mesh == other.gravity_mesh,
            0 <= c < self.cultures@.len(),
        ensures
            self.tree_force(c, k) == other.tree_force(c, k),
            self.pair_force(c, k) == other.pair_force(c, k),
            forall|mouse: Mouse|
                self.pointer_force(c, k, mouse) == other.pointer_force(c, k, mouse),
    {
        let n = self.cultures@.len();
        crate::sums::lemma_sum_ext(
            n,
            |j: int|
                built(self.conf.bound, self.cultures@[j].particles@).force_x(
                    self.particle(c, k).pos,
                    self.coefficient(c, j),
                    self.conf.aoe2 as int,
                    self.conf.theta as int,
                ),
            |j: int|
                built(other.conf.bound, other.cultures@[j].particles@).force_x(
                    other.particle(c, k).pos,
                    other.coefficient(c, j),
                    other.conf.aoe2 as int,
                    other.conf.theta as int,
                ),
        );
        crate::sums::lemma_sum_ext(
            n,
            |j: int|
                built(self.conf.bound, self.cultures@[j].particles@).force_y(
                    self.particle(c, k).pos,
                    self.coefficient(c, j),
                    self.conf.aoe2 as int,
                    self.conf.theta as int,
                ),
            |j: int|
                built(other.conf.bound, other.cultures@[j].particles@).force_y(
                    other.particle(c, k).pos,
                    other.coefficient(c, j),
                    other.conf.aoe2 as int,
                    other.conf.theta as int,
                ),
        );
        crate::sums::lemma_sum_ext(
            n,
            |j: int|
                pairwise_force_x(
                    self.cultures@[j].particles@,
                    self.particle(c, k).pos,
                    self.coefficient(c, j),
                    self.conf.aoe2 as int,
                ),
            |j: int|
                pairwise_force_x(
                    other.cultures@[j].particles@,
                    other.particle(c, k).pos,
                    other.coefficient(c, j),
                    other.conf.aoe2 as int,
                ),
        );
        crate::sums::lemma_sum_ext(
            n,
            |j: int|
                pairwise_force_y(
                    self.cultures@[j].particles@,
                    self.particle(c, k).pos,
                    self.coefficient(c, j),
                    self.conf.aoe2 as int,
                ),
            |j: int|
                pairwise_force_y(
                    other.cultures@[j].particles@,
                    other.particle(c, k).pos,
                    other.coefficient(c, j),
                    other.conf.aoe2 as int,
                ),
        );
    }

    /// The forces on the particles of culture `c` from all particles: pair by
    /// pair, or by the Barnes-Hut approximation from the quadtrees as they
    /// stand.
    fn force_row(&self, c: usize, pairwise: bool) -> (row: Vec<Vec2>)
        requires
            self.wf(),
            pairwise || self.trees_ready(),
            c < self.conf.num_cultures,
        ensures
            row@.len() == self.conf.culture_size,
            forall|k: int|
                0 <= k < row@.len() ==> #[trigger] row@[k] == self.force_by(pairwise, c as int, k)
                    && row@[k].in_range(),
    {
        let n: usize = self.conf.culture_size;
        let mut row: Vec<Vec2> = Vec::new();
        let mut k: usize = 0;
        while k < n
            invariant
                k <= n,
                n == self.conf.culture_size,
                self.wf(),
                pairwise || self.trees_ready(),
                c < self.conf.num_cultures,
                row@.len() == k,
                forall|a: int|
                    0 <= a < k ==> #[trigger] row@[a] == self.force_by(pairwise, c as int, a)
                        && row@[a].in_range(),
            decreases n - k,
        {
            let f: Vec2 = if pairwise {
                self.net_force_naive(c, k)
            } else {
                self.net_force(c, k)
            };
            row.push(f);
            k += 1;
        }
        row
    }

    /// Fills the table of forces: pair by pair, or by the Barnes-Hut
    /// approximation from the quadtrees as they stand.
    fn fill_force_tensor(&mut self, pairwise: bool)
        requires
            old(self).wf(),
            pairwise || old(self).trees_ready(),
        ensures
            final(self).wf(),
            final(self).cultures == old(self).cultures,
            final(self).conf == old(self).conf,
            final(self).gravity_mesh == old(self).gravity_mesh,
            final(self).cursor_force_tensor == old(self).cursor_force_tensor,
            final(self).i == old(self).i,
            forall|c: int, k: int|
                0 <= c < old(self).conf.num_cultures && 0 <= k < old(self).conf.culture_size
                    ==> #[trigger] final(self).force_tensor@[c]@[k] == old(self).force_by(
                    pairwise,
                    c,
                    k,
                ),
    {
        let n: usize = self.cultures.len();
        let mut tensor: Vec<Vec<Vec2>> = Vec::new();
        let mut c: usize = 0;
        while c < n
            invariant
                c <= n,
                n == self.conf.num_cultures,
                self.wf(),
                pairwise || self.trees_ready(),
                *self == *old(self),
                tensor_wf(tensor@, c as nat, self.conf.culture_size as nat),
                forall|a: int, k: int|
                    0 <= a < c && 0 <= k < self.conf.culture_size ==> #[trigger] tensor@[a]@[k]
                        == self.force_by(pairwise, a, k),
            decreases n - c,
        {
            let row: Vec<Vec2> = self.force_row(c, pairwise);
            tensor.push(row);
            c += 1;
        }
        self.force_tensor = tensor;
    }

    /// Computes the force on every particle by the Barnes-Hut approximation:
    /// rebuilds the quadtree of every culture, sums for every particle the
    /// forces of all quadtrees, each under the coefficient of its culture, and
    /// divides by the number of cultures.
    pub fn compute_force(&mut self)
        requires
            old(self).wf(),
        ensures
            final(self).wf(),
            final(self).trees_ready(),
            final(self).same_particles(*old(self)),
            final(self).conf == old(self).conf,
            final(self).gravity_mesh == old(self).gravity_mesh,
            final(self).cursor_force_tensor == old(self).cursor_force_tensor,
            final(self).i == old(self).i,
            forall|c: int, k: int|
                0 <= c < old(self).conf.num_cultures && 0 <= k < old(self).conf.culture_size
                    ==> #[trigger] final(self).force_tensor@[c]@[k] == old(self).tree_force(c, k),
    {
        self.rebuild_trees();
        let ghost ready = *self;
        self.fill_force_tensor(false);
        proof {
            assert forall|c: int, k: int|
                0 <= c < old(self).conf.num_cultures && 0 <= k < old(
                    self,
                ).conf.culture_size implies #[trigger] self.force_tensor@[c]@[k] == old(
                self,
            ).tree_force(c, k) by {
                ready.lemma_forces_frame(*old(self), c, k);
            }
        }
    }

    /// Computes the force on every particle pair by pair: sums for every
    /// particle the forces of all particles, each under the coefficient of its
    /// culture, and divides by the number of cultures.
    pub fn compute_force_naive(&mut self)
        requires
            old(self).wf(),
        ensures
            final(self).wf(),
            final(self).cultures == old(self).cultures,
            final(self).conf == old(self).conf,
            final(self).gravity_mesh == old(self).gravity_mesh,
            final(self).cursor_force_tensor == old(self).cursor_force_tensor,
            final(self).i == old(self).i,
            forall|c: int, k: int|
                0 <= c < old(self).conf.num_cultures && 0 <= k < old(self).conf.culture_size
                    ==> #[trigger] final(self).force_tensor@[c]@[k] == old(self).pair_force(c, k),
    {
        self.fill_force_tensor(true);
    }

    /// Computes anew the forces on the particles of culture `c1` alone, by the
    /// Barnes-Hut approximation from the quadtrees as they stand, and leaves
    /// the stored forces on all other particles as they are.
    pub fn compute_force_tensor_slice(&mut self, c1: usize)
        requires
            old(self).wf(),
            old(self).trees_ready(),
            c1 < old(self).conf.num_cultures,
        ensures
            final(self).wf(),
            final(self).cultures == old(self).cultures,
            final(self).conf == old(self).conf,
            final(self).gravity_mesh == old(self).gravity_mesh,
            final(self).cursor_force_tensor == old(self).cursor_force_tensor,
            final(self).i == old(self).i,
            forall|c: int, k: int|
                0 <= c < old(self).conf.num_cultures && 0 <= k < old(self).conf.culture_size
                    ==> #[trigger] final(self).force_tensor@[c]@[k] == if c == c1 {
                    old(self).tree_force(c, k)
                } else {
                    old(self).force_tensor@[c]@[k]
                },
    {
        let row: Vec<Vec2> = self.force_row(c1, false);
        self.force_tensor[c1] = row;
    }

    /// Computes the force of the pointer on every particle.
    pub fn compute_cursor_force(&mut self, mouse: &Mouse)
        requires
            old(self).wf(),
            mouse.pos.in_range(),
        ensures
            final(self).wf(),
            final(self).cultures == old(self).cultures,
            final(self).conf == old(self).conf,
            final(self).gravity_mesh == old(self).gravity_mesh,
            final(self).force_tensor == old(self).force_tensor,
            final(self).i == old(self).i,
            forall|c: int, k: int|
                0 <= c < old(self).conf.num_cultures && 0 <= k < old(self).conf.culture_size
                    ==> #[trigger] final(self).cursor_force_tensor@[c]@[k] == old(
                    self,
                ).pointer_force(c, k, *mouse),
    {
        let n: usize = self.cultures.len();
        let mut tensor: Vec<Vec<Vec2>> = Vec::new();
        let mut c: usize = 0;
        while c < n
            invariant
                c <= n,
                n == self.conf.num_cultures,
                self.wf(),
                mouse.pos.in_range(),
                *self == *old(self),
                tensor_wf(tensor@, c as nat, self.conf.culture_size as nat),
                forall|a: int, k: int|
                    0 <= a < c && 0 <= k < self.conf.culture_size ==> #[trigger] tensor@[a]@[k]
                        == self.pointer_force(a, k, *mouse),
            decreases n - c,
        {
            let row: Vec<Vec2> = self.cursor_row(c, mouse);
            tensor.push(row);
            c += 1;
        }
        self.cursor_force_tensor = tensor;
    }

    /// The forces of the pointer on the particles of culture `c`.
    fn cursor_row(&self, c: usize, mouse: &Mouse) -> (row: Vec<Vec2>)
        requires
            self.wf(),
            mouse.pos.in_range(),
            c < self.conf.num_cultures,
        ensures
            row@.len() == self.conf.culture_size,
            forall|k: int|
                0 <= k < row@.len() ==> #[trigger] row@[k] == self.pointer_force(
                    c as int,
                    k,
                    *mouse,
                ) && row@[k].in_range(),
    {
        let n: usize = self.conf.culture_size;
        let mut row: Vec<Vec2> = Vec::new();
        let mut k: usize = 0;
        while k < n
            invariant
                k <= n,
                n == self.conf.culture_size,
                self.wf(),
                mouse.pos.in_range(),
                c < self.conf.num_cultures,
                row@.len() == k,
                forall|a: int|
                    0 <= a < k ==> #[trigger] row@[a] == self.pointer_force(c as int, a, *mouse)
                        && row@[a].in_range(),
            decreases n - k,
        {
            assert(all_storable(self.cultures@[c as int].particles@));
            assert(self.cultures@[c as int].particles@[k as int].wf());
            let p: Particle = self.cultures[c].particles[k];
            let f: Force = p.cursor_force(mouse, self.conf.cursor_aoe2, self.conf.cursor_force);
            proof {
                let g = cursor_coefficient(mouse.button, self.conf.cursor_force as int);
                lemma_kernel_bound(p.pos, mouse.pos, 1, g, self.conf.cursor_aoe2 as int);
                assert(magnitude(g) * 1 <= LIMIT);
            }
            row.push(Vec2 { x: f.x as i64, y: f.y as i64 });
            k += 1;
        }
        row
    }

    /// Moves every particle through one tick of length `tau` under the sum of
    /// its two stored forces.
    pub fn apply_force_tensor(&mut self, tau: i64)
        requires
            old(self).wf(),
            in_range(tau as int),
        ensures
            final(self).wf(),
            final(self).cultures@.len() == old(self).cultures@.len(),
            forall|c: int|
                0 <= c < old(self).cultures@.len() ==> (#[trigger] final(self).cultures@[c]).color
                    == old(self).cultures@[c].color && final(self).cultures@[c].qt == old(
                    self,
                ).cultures@[c].qt,
            forall|c: int, k: int|
                0 <= c < old(self).conf.num_cultures && 0 <= k < old(self).conf.culture_size
                    ==> #[trigger] final(self).particle(c, k) == stepped(
                    old(self).particle(c, k),
                    crate::culture::both(
                        old(self).force_tensor@[c]@[k],
                        old(self).cursor_force_tensor@[c]@[k],
                    ),
                    old(self).conf.damping as int,
                    tau as int,
                    old(self).conf.bound.end,
                ),
            final(self).conf == old(self).conf,
            final(self).gravity_mesh == old(self).gravity_mesh,
            final(self).force_tensor == old(self).force_tensor,
            final(self).cursor_force_tensor == old(self).cursor_force_tensor,
            final(self).i == old(self).i,
    {
        let n: usize = self.cultures.len();
        let damping: i64 = self.conf.damping;
        let size: Vec2 = self.conf.bound.end;
        let mut c: usize = 0;
        while c < n
            invariant
                c <= n,
                n == self.conf.num_cultures,
                n == old(self).cultures@.len(),
                self.wf(),
                in_range(tau as int),
                damping == self.conf.damping,
                size == self.conf.bound.end,
                self.conf == old(self).conf,
                self.gravity_mesh == old(self).gravity_mesh,
                self.force_tensor == old(self).force_tensor,
                self.cursor_force_tensor == old(self).cursor_force_tensor,
                self.i == old(self).i,
                forall|a: int|
                    0 <= a < n ==> (#[trigger] self.cultures@[a]).color == old(
                        self,
                    ).cultures@[a].color && self.cultures@[a].qt == old(self).cultures@[a].qt,
                forall|a: int| c <= a < n ==> self.cultures@[a] == old(self).cultures@[a],
                forall|a: int, k: int|
                    0 <= a < c && 0 <= k < self.conf.culture_size ==> #[trigger] self.particle(a, k)
                        == stepped(
                        old(self).particle(a, k),
                        crate::culture::both(
                            old(self).force_tensor@[a]@[k],
                            old(self).cursor_force_tensor@[a]@[k],
                        ),
                        old(self).conf.damping as int,
                        tau as int,
                        old(self).conf.bound.end,
                    ),
            decreases n - c,
        {
            assert(all_storable(self.cultures@[c as int].particles@));
            let ghost before = *self;
            self.cultures[c].advance_all(
                &self.force_tensor[c],
                &self.cursor_force_tensor[c],
                damping,
                tau,
                &size,
            );
            proof {
                assert forall|a: int, k: int|
                    0 <= a < c + 1 && 0 <= k < self.conf.culture_size implies #[trigger] self.particle(
                    a,
                    k,
                ) == stepped(
                    old(self).particle(a, k),
                    crate::culture::both(
                        old(self).force_tensor@[a]@[k],
                        old(self).cursor_force_tensor@[a]@[k],
                    ),
                    old(self).conf.damping as int,
                    tau as int,
                    old(self).conf.bound.end,
                ) by {
                    if a < c {
                        assert(self.cultures@[a] == before.cultures@[a]);
                        assert(self.particle(a, k) == before.particle(a, k));
                    } else {
                        assert(before.cultures@[a] == old(self).cultures@[a]);
                        assert(self.cultures@[a].particles@[k] == stepped(
                            before.cultures@[a].particles@[k],
                            crate::culture::both(
                                self.force_tensor@[a]@[k],
                                self.cursor_force_tensor@[a]@[k],
                            ),
                            damping as int,
                            tau as int,
                            size,
                        ));
                    }
                }
            }
            c += 1;
        }
    }

    /// One tick of length `tau`: the forces on all particles are computed from
    /// their positions as they are, by the way that the configuration names
    /// (for the Barnes-Hut approximation the quadtree of every culture is
    /// built anew first); if the world is interactive, so is the force of the
    /// pointer; then every particle moves under the sum of the two. A `tau` or
    /// a pointer position outside the storable range counts as the nearest
    /// storable one.
    pub fn step(&mut self, tau: i64, mouse: &Mouse)
        requires
            old(self).wf(),
        ensures
            final(self).wf(),
            final(self).cultures@.len() == old(self).cultures@.len(),
            forall|c: int|
                0 <= c < old(self).cultures@.len() ==> (#[trigger] final(self).cultures@[c]).color
                    == old(self).cultures@[c].color,
            forall|c: int, k: int|
                0 <= c < old(self).conf.num_cultures && 0 <= k < old(self).conf.culture_size
                    ==> #[trigger] final(self).particle(c, k) == old(self).after_tick(
                    c,
                    k,
                    tau as int,
                    *mouse,
                ),
            forall|c: int|
                0 <= c < old(self).cultures@.len() ==> (#[trigger] final(self).cultures@[c]).qt
                    == if old(self).conf.gpu {
                    old(self).cultures@[c].qt
                } else {
                    built(old(self).conf.bound, old(self).cultures@[c].particles@)
                },
            final(self).conf == old(self).conf,
            final(self).gravity_mesh == old(self).gravity_mesh,
            final(self).i == if old(self).i == u64::MAX {
                0
            } else {
                old(self).i + 1
            },
    {
        let dt: i64 = saturate(tau as i128);
        let pointer: Mouse = Mouse {
            button: mouse.button,
            pos: Vec2 { x: saturate(mouse.pos.x as i128), y: saturate(mouse.pos.y as i128) },
        };
        if self.conf.gpu {
            self.compute_force_grid();
        } else {
            self.compute_force();
        }
        let ghost forced = *self;
        if self.conf.is_interactive {
            self.compute_cursor_force(&pointer);
        }
        let ghost ready = *self;
        proof {
            assert forall|c: int, k: int|
                0 <= c < old(self).conf.num_cultures && 0 <= k < old(
                    self,
                ).conf.culture_size implies #[trigger] ready.particle(c, k) == old(self).particle(
                c,
                k,
            ) && crate::culture::both(
                ready.force_tensor@[c]@[k],
                ready.cursor_force_tensor@[c]@[k],
            ) == old(self).tick_force(c, k, *mouse) by {
                forced.lemma_forces_frame(*old(self), c, k);
                assert(forced.cultures@[c].particles == old(self).cultures@[c].particles);
                assert(ready.cultures@[c].particles == forced.cultures@[c].particles);
                assert(storable_mouse(*mouse) == pointer);
            }
        }
        self.apply_force_tensor(dt);
        let ghost moved = *self;
        self.i = if self.i == u64::MAX {
            0
        } else {
            self.i + 1
        };
        proof {
            assert forall|c: int, k: int|
                0 <= c < old(self).conf.num_cultures && 0 <= k < old(
                    self,
                ).conf.culture_size implies #[trigger] self.particle(c, k) == old(self).after_tick(
                c,
                k,
                tau as int,
                *mouse,
            ) by {
                assert(self.particle(c, k) == moved.particle(c, k));
                assert(ready.particle(c, k) == old(self).particle(c, k));
            }
        }
    }
}

impl World {
    /// The culture whose forces the coming rolling tick computes anew.
    pub open spec fn turn(self) -> int {
        (self.i as int) % (self.conf.num_cultures as int)
    }

    /// The force under which particle `k` of culture `c` moves in a rolling
    /// tick: for the culture whose turn it is, the force by the Barnes-Hut
    /// approximation; for the others, the force that is stored, which is up
    /// to as many ticks old as there are cultures; plus the force of the
    /// pointer, as in any tick.
    pub open spec fn rolling_force(self, c: int, k: int, mouse: Mouse) -> Vec2 {
        crate::culture::both(
            if c == self.turn() {
                self.tree_force(c, k)
            } else {
                self.force_tensor@[c]@[k]
            },
            if self.conf.is_interactive {
                self.pointer_force(c, k, storable_mouse(mouse))
            } else {
                self.cursor_force_tensor@[c]@[k]
            },
        )
    }

    /// One tick of length `tau` that computes anew the forces on one culture
    /// only, each culture in its turn, and moves every particle under the
    /// forces that are stored.
    pub fn step_rolling(&mut self, tau: i64, mouse: &Mouse)
        requires
            old(self).wf(),
        ensures
            final(self).wf(),
            final(self).cultures@.len() == old(self).cultures@.len(),
            forall|c: int|
                0 <= c < old(self).cultures@.len() ==> (#[trigger] final(self).cultures@[c]).color
                    == old(self).cultures@[c].color,
            forall|c: int, k: int|
                0 <= c < old(self).conf.num_cultures && 0 <= k < old(self).conf.culture_size
                    ==> #[trigger] final(self).particle(c, k) == stepped(
                    old(self).particle(c, k),
                    old(self).rolling_force(c, k, *mouse),
                    old(self).conf.damping as int,
                    saturated(tau as int),
                    old(self).conf.bound.end,
                ),
            final(self).conf == old(self).conf,
            final(self).gravity_mesh == old(self).gravity_mesh,
            final(self).i == if old(self).i == u64::MAX {
                0
            } else {
                old(self).i + 1
            },
    {
        let dt: i64 = saturate(tau as i128);
        let pointer: Mouse = Mouse {
            button: mouse.button,
            pos: Vec2 { x: saturate(mouse.pos.x as i128), y: saturate(mouse.pos.y as i128) },
        };
        self.rebuild_trees();
        let ghost rebuilt = *self;
        let turn: usize = (self.i % (self.cultures.len() as u64)) as usize;
        self.compute_force_tensor_slice(turn);
        let ghost forced = *self;
        if self.conf.is_interactive {
            self.compute_cursor_force(&pointer);
        }
        let ghost ready = *self;
        proof {
            assert forall|c: int, k: int|
                0 <= c < old(self).conf.num_cultures && 0 <= k < old(
                    self,
                ).conf.culture_size implies #[trigger] ready.particle(c, k) == old(self).particle(
                c,
                k,
            ) && crate::culture::both(
                ready.force_tensor@[c]@[k],
                ready.cursor_force_tensor@[c]@[k],
            ) == old(self).rolling_force(c, k, *mouse) by {
                rebuilt.lemma_forces_frame(*old(self), c, k);
                assert(rebuilt.cultures@[c].particles == old(self).cultures@[c].particles);
                assert(forced.cultures == rebuilt.cultures);
                assert(ready.cultures == forced.cultures);
                assert(storable_mouse(*mouse) == pointer);
                assert(forced.force_tensor@[c]@[k] == if c == turn {
                    rebuilt.tree_force(c, k)
                } else {
                    rebuilt.force_tensor@[c]@[k]
                });
            }
        }
        self.apply_force_tensor(dt);
        let ghost moved = *self;
        self.i = if self.i == u64::MAX {
            0
        } else {
            self.i + 1
        };
        proof {
            assert forall|c: int, k: int|
                0 <= c < old(self).conf.num_cultures && 0 <= k < old(
                    self,
                ).conf.culture_size implies #[trigger] self.particle(c, k) == stepped(
                old(self).particle(c, k),
                old(self).rolling_force(c, k, *mouse),
                old(self).conf.damping as int,
                saturated(tau as int),
                old(self).conf.bound.end,
            ) by {
                assert(self.particle(c, k) == moved.particle(c, k));
                assert(ready.particle(c, k) == old(self).particle(c, k));
            }
        }
    }
}

} // verus!
