//! What a world hands to its host, and what it takes back from a graphics
//! device: particles in one row, culture after culture.

use crate::fixed::saturate;
use crate::mesh::{json_of_mesh, mesh_to_json, rows};
use crate::sim::{tensor_wf, World};
use crate::util::Color;
use crate::vector::Vec2;
use vstd::prelude::*;

verus! {

/// The vector with both coordinates brought into the storable range.
pub open spec fn storable(v: Vec2) -> Vec2 {
    Vec2 {
        x: crate::fixed::saturated(v.x as int) as i64,
        y: crate::fixed::saturated(v.y as int) as i64,
    }
}

/// Rows of `s` entries each, `c` of them complete and one begun with `k`
/// entries, have `c * s + k` entries, and so on for the next entry and the
/// next row.
pub proof fn lemma_row_major(c: int, s: int, k: int, n: int)
    requires
        0 <= c < n,
        0 <= k < s,
    ensures
        0 <= c * s + k < n * s,
        (c + 1) * s == c * s + s,
        c * s + k + 1 <= (c + 1) * s,
{
    assert(0 <= c * s + k < n * s && (c + 1) * s == c * s + s) by (nonlinear_arith)
        requires
            0 <= c < n,
            0 <= k < s,
    ;
}

impl World {
    /// The gravity mesh as JSON text.
    pub fn export_gravity_mesh_json(&self) -> (text: String)
        ensures
            text@ == json_of_mesh(rows(self.gravity_mesh@)),
    {
        mesh_to_json(&self.gravity_mesh)
    }

    /// The colour and the position of every particle, culture after culture:
    /// what a host draws.
    pub fn render(&self) -> (out: Vec<(Color, Vec2)>)
        requires
            self.wf(),
        ensures
            out@.len() == self.conf.num_cultures * self.conf.culture_size,
            forall|c: int, k: int|
                0 <= c < self.conf.num_cultures && 0 <= k < self.conf.culture_size ==> out@[c
                    * self.conf.culture_size + k] == (
                    self.cultures@[c].color,
                    (#[trigger] self.particle(c, k)).pos,
                ),
    {
        let n: usize = self.cultures.len();
        let s: usize = self.conf.culture_size;
        let mut out: Vec<(Color, Vec2)> = Vec::new();
        let mut c: usize = 0;
        while c < n
            invariant
                c <= n,
                n == self.conf.num_cultures,
                s == self.conf.culture_size,
                self.wf(),
                out@.len() == c * s,
                forall|a: int, k: int|
                    0 <= a < c && 0 <= k < s ==> out@[a * s + k] == (
                        self.cultures@[a].color,
                        (#[trigger] self.particle(a, k)).pos,
                    ),
            decreases n - c,
        {
            let color: Color = self.cultures[c].color;
            let mut k: usize = 0;
            while k < s
                invariant
                    c < n,
                    k <= s,
                    n == self.conf.num_cultures,
                    s == self.conf.culture_size,
                    self.wf(),
                    color == self.cultures@[c as int].color,
                    out@.len() == c * s + k,
                    forall|a: int, b: int|
                        0 <= a < c && 0 <= b < s ==> out@[a * s + b] == (
                            self.cultures@[a].color,
                            (#[trigger] self.particle(a, b)).pos,
                        ),
                    forall|b: int|
                        0 <= b < k ==> out@[c * s + b] == (
                            color,
                            (#[trigger] self.particle(c as int, b)).pos,
                        ),
                decreases s - k,
            {
                let ghost before = out@;
                out.push((color, self.cultures[c].particles[k].pos));
                proof {
                    assert forall|a: int, b: int| 0 <= a < c && 0 <= b < s implies out@[a * s + b]
                        == (self.cultures@[a].color, (#[trigger] self.particle(a, b)).pos) by {
                        lemma_row_major(a, s as int, b, c as int);
                        assert(out@[a * s + b] == before[a * s + b]);
                    }
                }
                k += 1;
            }
            proof {
                lemma_row_major(c as int, s as int, 0, n as int);
            }
            c += 1;
        }
        out
    }

    /// The position of every particle, culture after culture: what a graphics
    /// device is given to compute forces from.
    pub fn positions(&self) -> (out: Vec<Vec2>)
        requires
            self.wf(),
        ensures
            out@.len() == self.conf.num_cultures * self.conf.culture_size,
            forall|c: int, k: int|
                0 <= c < self.conf.num_cultures && 0 <= k < self.conf.culture_size ==> out@[c
                    * self.conf.culture_size + k] == (#[trigger] self.particle(c, k)).pos,
    {
        let drawn: Vec<(Color, Vec2)> = self.render();
        let n: usize = drawn.len();
        let mut out: Vec<Vec2> = Vec::new();
        let mut i: usize = 0;
        while i < n
            invariant
                i <= n,
                n == drawn@.len(),
                out@.len() == i,
                forall|a: int| 0 <= a < i ==> #[trigger] out@[a] == drawn@[a].1,
            decreases n - i,
        {
            out.push(drawn[i].1);
            i += 1;
        }
        proof {
            assert forall|c: int, k: int|
                0 <= c < self.conf.num_cultures && 0 <= k
                    < self.conf.culture_size implies out@[c * self.conf.culture_size + k] == (
            #[trigger] self.particle(c, k)).pos by {
                lemma_row_major(
                    c,
                    self.conf.culture_size as int,
                    k,
                    self.conf.num_cultures as int,
                );
            }
        }
        out
    }

    /// Takes the forces that a graphics device computed for the positions of
    /// `positions`, in the same order, as the forces on the particles. A
    /// force outside the storable range counts as the nearest storable one.
    pub fn compute_force_naive_gpu(&mut self, forces: &Vec<Vec2>)
        requires
            old(self).wf(),
            forces@.len() == old(self).conf.num_cultures * old(self).conf.culture_size,
        ensures
            final(self).wf(),
            final(self).cultures == old(self).cultures,
            final(self).conf == old(self).conf,
            final(self).gravity_mesh == old(self).gravity_mesh,
            final(self).cursor_force_tensor == old(self).cursor_force_tensor,
            final(self).i == old(self).i,
            forall|c: int, k: int|
                0 <= c < old(self).conf.num_cultures && 0 <= k < old(self).conf.culture_size
                    ==> #[trigger] final(self).force_tensor@[c]@[k] == storable(
                    forces@[c * old(self).conf.culture_size + k],
                ),
    {
        let n: usize = self.cultures.len();
        let s: usize = self.conf.culture_size;
        let total: usize = forces.len();
        let mut tensor: Vec<Vec<Vec2>> = Vec::new();
        let mut next: usize = 0;
        let mut c: usize = 0;
        while c < n
            invariant
                c <= n,
                n == self.conf.num_cultures,
                s == self.conf.culture_size,
                s >= 1,
                forces@.len() == n * s,
                forces@.len() == total,
                next == c * s,
                tensor_wf(tensor@, c as nat, s as nat),
                forall|a: int, k: int|
                    0 <= a < c && 0 <= k < s ==> #[trigger] tensor@[a]@[k] == storable(
                        forces@[a * s + k],
                    ),
            decreases n - c,
        {
            let mut row: Vec<Vec2> = Vec::new();
            let mut k: usize = 0;
            while k < s
                invariant
                    c < n,
                    k <= s,
                    s >= 1,
                    forces@.len() == n * s,
                    forces@.len() == total,
                    next == c * s + k,
                    row@.len() == k,
                    forall|b: int|
                        0 <= b < k ==> #[trigger] row@[b] == storable(forces@[c * s + b])
                            && row@[b].in_range(),
                decreases s - k,
            {
                proof {
                    lemma_row_major(c as int, s as int, k as int, n as int);
                }
                assert(next < forces@.len());
                let f: Vec2 = forces[next];
                row.push(Vec2 { x: saturate(f.x as i128), y: saturate(f.y as i128) });
                next += 1;
                k += 1;
            }
            proof {
                lemma_row_major(c as int, s as int, 0, n as int);
            }
            tensor.push(row);
            c += 1;
        }
        self.force_tensor = tensor;
    }
}

} // verus!
