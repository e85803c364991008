//! Forces over the uniform grid: for each particle, only the particles of its
//! cell and of the cells around it are looked at. Since no particle beyond
//! them is within reach, the forces are those of the pairwise computation.

use crate::culture::{all_storable, pairwise_force_x, pairwise_force_y};
use crate::fixed::{div_trunc, in_range, magnitude, saturate, LIMIT, ONE};
use crate::gpu::{grid_measures, reach_of};
use crate::grid::Grid;
use crate::kernel::{acts, kernel, kernel_x, kernel_y, lemma_kernel_bound};
use crate::neighbors::{around, ints, lemma_around_holds_near, lemma_around_is_close};
use crate::sim::{tensor_wf, World};
use crate::sums::{
    lemma_sum_const, lemma_sum_ext, lemma_sum_le, lemma_sum_over_list, lemma_sum_rows, sum_to,
};
use crate::vector::{dist2, lemma_dist2, Force, Vec2};
use crate::views::lemma_row_major;
use vstd::prelude::*;

verus! {

/// The entry `j * s + i` of a row of rows of `s` entries is entry `i` of
/// row `j`.
pub proof fn lemma_row_of(j: int, s: int, i: int)
    requires
        0 <= j,
        0 <= i < s,
    ensures
        (j * s + i) / s == j,
        (j * s + i) % s == i,
{
    vstd::arithmetic::div_mod::lemma_fundamental_div_mod_converse(j * s + i, s, j, i);
}

/// A list of distinct numbers below `n` has at most `n` entries.
pub proof fn lemma_distinct_count(n: nat, list: Seq<int>)
    requires
        list.no_duplicates(),
        forall|t: int| 0 <= t < list.len() ==> 0 <= #[trigger] list[t] < n,
    ensures
        list.len() <= n,
{
    let one = |i: int| 1int;
    let held = |i: int|
        if list.contains(i) {
            one(i)
        } else {
            0
        };
    lemma_sum_over_list(n, one, list);
    lemma_sum_const(list.len(), |t: int| one(list[t]), 1);
    lemma_sum_le(n, held, one);
    lemma_sum_const(n, one, 1);
}

/// Number of cells up to which a grid is built however few the particles.
pub const SMALL_GRID: usize = 4096;

impl World {
    /// `positions` holds the positions of the particles, culture after
    /// culture.
    pub open spec fn lists_positions(self, positions: Seq<Vec2>) -> bool {
        &&& positions.len() == self.conf.num_cultures * self.conf.culture_size
        &&& forall|c: int, k: int|
            0 <= c < self.conf.num_cultures && 0 <= k < self.conf.culture_size
                ==> positions[c * self.conf.culture_size + k] == (#[trigger] self.particle(
                c,
                k,
            )).pos
    }

    /// The pairwise force on a particle is a sum over all particles in one
    /// row.
    pub proof fn lemma_pair_sum_flat(self, positions: Seq<Vec2>, c: int, k: int)
        requires
            self.wf(),
            self.lists_positions(positions),
            0 <= c < self.conf.num_cultures,
            0 <= k < self.conf.culture_size,
        ensures
            self.pair_sum_x(c, k) == sum_to(
                positions.len(),
                |e: int|
                    kernel_x(
                        self.particle(c, k).pos,
                        positions[e],
                        1,
                        self.coefficient(c, e / (self.conf.culture_size as int)),
                        self.conf.aoe2 as int,
                    ),
            ),
            self.pair_sum_y(c, k) == sum_to(
                positions.len(),
                |e: int|
                    kernel_y(
                        self.particle(c, k).pos,
                        positions[e],
                        1,
                        self.coefficient(c, e / (self.conf.culture_size as int)),
                        self.conf.aoe2 as int,
                    ),
            ),
    {
        let n = self.conf.num_cultures as nat;
        let s = self.conf.culture_size as nat;
        let p = self.particle(c, k).pos;
        let aoe2 = self.conf.aoe2 as int;
        let rows_x = |j: int|
            pairwise_force_x(
                self.cultures@[j].particles@,
                self.particle(c, k).pos,
                self.coefficient(c, j),
                self.conf.aoe2 as int,
            );
        let rows_y = |j: int|
            pairwise_force_y(
                self.cultures@[j].particles@,
                self.particle(c, k).pos,
                self.coefficient(c, j),
                self.conf.aoe2 as int,
            );
        let row_x = |j: int, i: int|
            kernel_x(p, self.particle(j, i).pos, 1, self.coefficient(c, j), aoe2);
        let row_y = |j: int, i: int|
            kernel_y(p, self.particle(j, i).pos, 1, self.coefficient(c, j), aoe2);
        let flat_x = |e: int|
            kernel_x(
                self.particle(c, k).pos,
                positions[e],
                1,
                self.coefficient(c, e / (self.conf.culture_size as int)),
                self.conf.aoe2 as int,
            );
        let flat_y = |e: int|
            kernel_y(
                self.particle(c, k).pos,
                positions[e],
                1,
                self.coefficient(c, e / (self.conf.culture_size as int)),
                self.conf.aoe2 as int,
            );
        assert forall|j: int| 0 <= j < n implies #[trigger] rows_x(j) == sum_to(
            s,
            |i: int| row_x(j, i),
        ) by {
            let ps = self.cultures@[j].particles@;
            assert(ps.len() == s);
            lemma_sum_ext(
                s,
                |i: int| kernel_x(p, ps[i].pos, 1, self.coefficient(c, j), aoe2),
                |i: int| row_x(j, i),
            );
        }
        assert forall|j: int| 0 <= j < n implies #[trigger] rows_y(j) == sum_to(
            s,
            |i: int| row_y(j, i),
        ) by {
            let ps = self.cultures@[j].particles@;
            assert(ps.len() == s);
            lemma_sum_ext(
                s,
                |i: int| kernel_y(p, ps[i].pos, 1, self.coefficient(c, j), aoe2),
                |i: int| row_y(j, i),
            );
        }
        assert forall|j: int, i: int| 0 <= j < n && 0 <= i < s implies #[trigger] row_x(j, i)
            == flat_x(j * s + i) by {
            lemma_row_of(j, s as int, i);
            assert(positions[j * s + i] == self.particle(j, i).pos);
        }
        assert forall|j: int, i: int| 0 <= j < n && 0 <= i < s implies #[trigger] row_y(j, i)
            == flat_y(j * s + i) by {
            lemma_row_of(j, s as int, i);
            assert(positions[j * s + i] == self.particle(j, i).pos);
        }
        lemma_sum_rows(n, s, rows_x, row_x, flat_x);
        lemma_sum_rows(n, s, rows_y, row_y, flat_y);
    }

    /// The force on particle `k` of culture `c` from the particles that the
    /// grid names around it.
    fn net_force_grid(&self, grid: &Grid, positions: &Vec<Vec2>, reach: i64, c: usize, k: usize) -> (f:
        Vec2)
        requires
            self.wf(),
            self.lists_positions(positions@),
            grid.bins_positions(positions@),
            grid.area() < usize::MAX,
            reach >= 0,
            self.conf.aoe2 * ONE < (reach + 1) * (reach + 1),
            reach <= grid.bin_size || grid.grid_w == 1,
            c < self.conf.num_cultures,
            k < self.conf.culture_size,
        ensures
            f == self.pair_force(c as int, k as int),
            f.in_range(),
    {
        let pos: Vec2 = self.cultures[c].particles[k].pos;
        let aoe2: i64 = self.conf.aoe2;
        let s: usize = self.conf.culture_size;
        let n: usize = self.cultures.len();
        proof {
            grid.lemma_binned_wf(positions@);
            assert(all_storable(self.cultures@[c as int].particles@));
            assert(self.cultures@[c as int].particles@[k as int].wf());
        }
        let list: Vec<usize> = grid.neighbors(&pos);
        let ghost near = ints(list@);
        let ghost fx = |e: int|
            kernel_x(
                self.particle(c as int, k as int).pos,
                positions@[e],
                1,
                self.coefficient(c as int, e / (self.conf.culture_size as int)),
                self.conf.aoe2 as int,
            );
        let ghost fy = |e: int|
            kernel_y(
                self.particle(c as int, k as int).pos,
                positions@[e],
                1,
                self.coefficient(c as int, e / (self.conf.culture_size as int)),
                self.conf.aoe2 as int,
            );
        let ghost tx = |t: int| fx(near[t]);
        let ghost ty = |t: int| fy(near[t]);
        proof {
            lemma_around_is_close(*grid, positions@, pos);
            lemma_distinct_count(positions@.len(), near);
            lemma_row_major(0, s as int, 0, n as int);
        }
        let len: usize = list.len();
        let mut acc: Force = Force { x: 0, y: 0 };
        let mut t: usize = 0;
        while t < len
            invariant
                t <= len,
                len == list@.len(),
                len <= positions@.len(),
                positions@.len() == n * s,
                n * s <= u32::MAX,
                near == ints(list@),
                forall|u: int| 0 <= u < near.len() ==> 0 <= #[trigger] near[u] < positions@.len(),
                self.wf(),
                self.lists_positions(positions@),
                n == self.conf.num_cultures,
                s == self.conf.culture_size,
                aoe2 == self.conf.aoe2,
                c < n,
                k < s,
                pos == self.particle(c as int, k as int).pos,
                pos.in_range(),
                tx == |t: int| fx(near[t]),
                ty == |t: int| fy(near[t]),
                fx == |e: int|
                    kernel_x(
                        self.particle(c as int, k as int).pos,
                        positions@[e],
                        1,
                        self.coefficient(c as int, e / (self.conf.culture_size as int)),
                        self.conf.aoe2 as int,
                    ),
                fy == |e: int|
                    kernel_y(
                        self.particle(c as int, k as int).pos,
                        positions@[e],
                        1,
                        self.coefficient(c as int, e / (self.conf.culture_size as int)),
                        self.conf.aoe2 as int,
                    ),
                acc.x == sum_to(t as nat, tx),
                acc.y == sum_to(t as nat, ty),
                magnitude(acc.x as int) <= LIMIT * t,
                magnitude(acc.y as int) <= LIMIT * t,
            decreases len - t,
        {
            let e: usize = list[t];
            proof {
                assert(near[t as int] == e as int);
                assert(0 <= near[t as int] < positions@.len());
            }
            let j: usize = e / s;
            let ghost i: int = e as int % (s as int);
            proof {
                assert(e as int == j * s + i && 0 <= i < s) by (nonlinear_arith)
                    requires
                        s > 0,
                        j == e as int / (s as int),
                        i == e as int % (s as int),
                        e >= 0,
                ;
                assert(j < n) by (nonlinear_arith)
                    requires
                        e as int == j * s + i,
                        0 <= i,
                        e < n * s,
                        s > 0,
                ;
                assert(positions@[j * s + i] == self.particle(j as int, i).pos);
                assert(all_storable(self.cultures@[j as int].particles@));
                assert(self.cultures@[j as int].particles@[i].wf());
                assert(in_range(self.gravity_mesh@[c as int]@[j as int] as int));
            }
            let g: i64 = self.gravity_mesh[c][j];
            let other: Vec2 = positions[e];
            let part: Force = kernel(&pos, &other, 1, g, aoe2);
            proof {
                lemma_kernel_bound(pos, other, 1, g as int, aoe2 as int);
                let a = magnitude(g as int);
                assert(a * 1 <= LIMIT && LIMIT * (t + 1) == LIMIT * t + LIMIT && LIMIT * (t + 1)
                    <= LIMIT * 0xffff_ffff) by (nonlinear_arith)
                    requires
                        0 <= a <= LIMIT,
                        0 <= t < 0xffff_ffff,
                ;
                assert(part.x == tx(t as int));
                assert(part.y == ty(t as int));
            }
            acc = Force { x: acc.x + part.x, y: acc.y + part.y };
            t += 1;
        }
        proof {
            let total = positions@.len();
            lemma_sum_over_list(total, fx, near);
            lemma_sum_over_list(total, fy, near);
            let held_x = |e: int|
                if near.contains(e) {
                    fx(e)
                } else {
                    0
                };
            let held_y = |e: int|
                if near.contains(e) {
                    fy(e)
                } else {
                    0
                };
            assert forall|e: int| 0 <= e < total implies #[trigger] held_x(e) == fx(e) && held_y(
                e,
            ) == fy(e) by {
                if !near.contains(e) {
                    let q = positions@[e];
                    if acts(dist2(pos, q), aoe2 as int) {
                        lemma_dist2(pos, q);
                        let wide = aoe2 * ONE;
                        let (dx, dy) = (q.x - pos.x, q.y - pos.y);
                        assert(magnitude(dx) <= reach && magnitude(dy) <= reach) by {
                            if magnitude(dx) > reach {
                                let m = magnitude(dx);
                                assert(m * m >= (reach + 1) * (reach + 1)) by (nonlinear_arith)
                                    requires
                                        m >= reach + 1,
                                        reach >= 0,
                                ;
                                assert(m * m == dx * dx) by (nonlinear_arith)
                                    requires
                                        m == dx || m == -dx,
                                ;
                            }
                            if magnitude(dy) > reach {
                                let m = magnitude(dy);
                                assert(m * m >= (reach + 1) * (reach + 1)) by (nonlinear_arith)
                                    requires
                                        m >= reach + 1,
                                        reach >= 0,
                                ;
                                assert(m * m == dy * dy) by (nonlinear_arith)
                                    requires
                                        m == dy || m == -dy,
                                ;
                            }
                        }
                        lemma_around_holds_near(*grid, positions@, pos, e, reach as int);
                    }
                }
            }
            assert forall|e: int| 0 <= e < total implies #[trigger] held_y(e) == fy(e) by {
                assert(held_x(e) == fx(e));
            }
            lemma_sum_ext(total, held_x, fx);
            lemma_sum_ext(total, held_y, fy);
            self.lemma_pair_sum_flat(positions@, c as int, k as int);
        }
        Vec2 { x: saturate(div_trunc(acc.x, n as i128)), y: saturate(div_trunc(acc.y, n as i128)) }
    }

    /// Computes the force on every particle over the uniform grid: bins the
    /// particles, then sums for every particle the forces of the particles of
    /// its cell and of the cells around it, each under the coefficient of its
    /// culture, and divides by the number of cultures. The forces are those
    /// of the pairwise computation. Where the grid would have more cells than
    /// `SMALL_GRID` and more cells than there are particles, the pairwise
    /// computation takes its place.
    pub fn compute_force_grid(&mut self)
        requires
            old(self).wf(),
        ensures
            final(self).wf(),
            final(self).cultures == old(self).cultures,
            final(self).conf == old(self).conf,
            final(self).gravity_mesh == old(self).gravity_mesh,
            final(self).cursor_force_tensor == old(self).cursor_force_tensor,
            final(self).i == old(self).i,
            forall|c: int, k: int|
                0 <= c < old(self).conf.num_cultures && 0 <= k < old(self).conf.culture_size
                    ==> #[trigger] final(self).force_tensor@[c]@[k] == old(self).pair_force(c, k),
    {
        let reach: i64 = reach_of(self.conf.aoe2);
        let (grid_w, bin_size) = grid_measures(self.conf.bound.end.x, reach);
        let side: usize = if grid_w < usize::MAX as u64 {
            grid_w as usize
        } else {
            self.compute_force_naive();
            return ;
        };
        let positions: Vec<Vec2> = self.positions();
        match side.checked_mul(side) {
            Some(area) => {
                if area == usize::MAX || (area > SMALL_GRID && area > positions.len()) {
                    self.compute_force_naive();
                    return ;
                }
            },
            None => {
                self.compute_force_naive();
                return ;
            },
        }
        let grid: Grid = Grid::build(&positions, bin_size, side);
        let n: usize = self.cultures.len();
        let s: usize = self.conf.culture_size;
        let mut tensor: Vec<Vec<Vec2>> = Vec::new();
        let mut c: usize = 0;
        while c < n
            invariant
                c <= n,
                n == self.conf.num_cultures,
                s == self.conf.culture_size,
                self.wf(),
                *self == *old(self),
                self.lists_positions(positions@),
                grid.bins_positions(positions@),
                grid.area() < usize::MAX,
                reach >= 0,
                self.conf.aoe2 * ONE < (reach + 1) * (reach + 1),
                reach <= grid.bin_size || grid.grid_w == 1,
                tensor_wf(tensor@, c as nat, s as nat),
                forall|a: int, k: int|
                    0 <= a < c && 0 <= k < s ==> #[trigger] tensor@[a]@[k] == self.pair_force(a, k),
            decreases n - c,
        {
            let mut row: Vec<Vec2> = Vec::new();
            let mut k: usize = 0;
            while k < s
                invariant
                    k <= s,
                    c < n,
                    n == self.conf.num_cultures,
                    s == self.conf.culture_size,
                    self.wf(),
                    self.lists_positions(positions@),
                    grid.bins_positions(positions@),
                    grid.area() < usize::MAX,
                    reach >= 0,
                    self.conf.aoe2 * ONE < (reach + 1) * (reach + 1),
                    reach <= grid.bin_size || grid.grid_w == 1,
                    row@.len() == k,
                    forall|b: int|
                        0 <= b < k ==> #[trigger] row@[b] == self.pair_force(c as int, b)
                            && row@[b].in_range(),
                decreases s - k,
            {
                let f: Vec2 = self.net_force_grid(&grid, &positions, reach, c, k);
                row.push(f);
                k += 1;
            }
            tensor.push(row);
            c += 1;
        }
        self.force_tensor = tensor;
    }
}

} // verus!
