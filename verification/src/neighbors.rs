//! The query of the uniform grid: the particles of the cell of a position and
//! of the cells around it.

use crate::grid::{
    cell_at, cell_coordinate, cell_index, coordinate_of, lemma_members, lemma_start_of, members,
    start_of, Grid,
};
use crate::vector::Vec2;
use vstd::prelude::*;
use vstd::seq_lib::lemma_no_dup_in_concat;

verus! {

/// The cell coordinate before `c`, or `c` itself at the edge of the grid.
pub open spec fn low(c: int) -> int {
    if c > 0 {
        c - 1
    } else {
        0
    }
}

/// The cell coordinate after `c`, or `c` itself at the edge of the grid.
pub open spec fn high(c: int, grid_w: int) -> int {
    if c + 1 < grid_w {
        c + 1
    } else {
        grid_w - 1
    }
}

/// The particles of the cells `lo` to `hi` of a row, cell after cell.
pub open spec fn span(cells: Seq<usize>, grid_w: int, row: int, lo: int, hi: int) -> Seq<int>
    decreases hi - lo + 1,
{
    if hi < lo {
        Seq::empty()
    } else {
        span(cells, grid_w, row, lo, hi - 1) + members(cells, cell_at(row, hi, grid_w))
    }
}

/// The particles of the cells `xlo` to `xhi` of the rows `ylo` to `yhi`, row
/// after row.
pub open spec fn block(
    cells: Seq<usize>,
    grid_w: int,
    ylo: int,
    yhi: int,
    xlo: int,
    xhi: int,
) -> Seq<int>
    decreases yhi - ylo + 1,
{
    if yhi < ylo {
        Seq::empty()
    } else {
        block(cells, grid_w, ylo, yhi - 1, xlo, xhi) + span(cells, grid_w, yhi, xlo, xhi)
    }
}

/// The particles of the cell of `p` and of the cells around it.
pub open spec fn around(cells: Seq<usize>, bin: int, grid_w: int, p: Vec2) -> Seq<int> {
    let cx = cell_coordinate(p.x as int, bin, grid_w);
    let cy = cell_coordinate(p.y as int, bin, grid_w);
    block(cells, grid_w, low(cy), high(cy, grid_w), low(cx), high(cx, grid_w))
}

/// Particle indices as integers.
pub open spec fn ints(s: Seq<usize>) -> Seq<int> {
    s.map_values(|v: usize| v as int)
}

/// A span holds each particle of its cells once, and no other particle.
pub proof fn lemma_span(cells: Seq<usize>, grid_w: int, row: int, lo: int, hi: int)
    ensures
        forall|t: int|
            0 <= t < span(cells, grid_w, row, lo, hi).len() ==> {
                let e = #[trigger] span(cells, grid_w, row, lo, hi)[t];
                0 <= e < cells.len() && row * grid_w + lo <= cells[e] <= row * grid_w + hi
            },
        span(cells, grid_w, row, lo, hi).no_duplicates(),
        forall|x: int, e: int|
            lo <= x <= hi && #[trigger] members(cells, cell_at(row, x, grid_w)).contains(e) ==> span(
                cells,
                grid_w,
                row,
                lo,
                hi,
            ).contains(e),
    decreases hi - lo + 1,
{
    if hi >= lo {
        let head = span(cells, grid_w, row, lo, hi - 1);
        let last = members(cells, cell_at(row, hi, grid_w));
        let all = span(cells, grid_w, row, lo, hi);
        lemma_span(cells, grid_w, row, lo, hi - 1);
        lemma_members(cells, cell_at(row, hi, grid_w));
        assert forall|t: int| 0 <= t < all.len() implies {
            let e = #[trigger] all[t];
            0 <= e < cells.len() && row * grid_w + lo <= cells[e] <= row * grid_w + hi
        } by {
            if t < head.len() {
                assert(all[t] == head[t]);
            } else {
                assert(all[t] == last[t - head.len()]);
            }
        }
        assert(last.no_duplicates());
        assert forall|i: int, j: int| 0 <= i < head.len() && 0 <= j < last.len() implies head[i]
            != last[j] by {
            assert(cells[head[i]] <= row * grid_w + hi - 1);
            assert(cells[last[j]] == row * grid_w + hi);
        }
        lemma_no_dup_in_concat(head, last);
        assert forall|x: int, e: int|
            lo <= x <= hi && #[trigger] members(cells, cell_at(row, x, grid_w)).contains(
                e,
            ) implies all.contains(e) by {
            if x == hi {
                let t = choose|t: int| 0 <= t < last.len() && last[t] == e;
                assert(all[head.len() + t] == e);
            } else {
                assert(head.contains(e));
                let t = choose|t: int| 0 <= t < head.len() && head[t] == e;
                assert(all[t] == e);
            }
        }
    }
}

/// A block holds each particle of its cells once, and no other particle.
pub proof fn lemma_block(cells: Seq<usize>, grid_w: int, ylo: int, yhi: int, xlo: int, xhi: int)
    requires
        grid_w >= 1,
        0 <= xlo,
        xhi < grid_w,
    ensures
        forall|t: int|
            0 <= t < block(cells, grid_w, ylo, yhi, xlo, xhi).len() ==> {
                let e = #[trigger] block(cells, grid_w, ylo, yhi, xlo, xhi)[t];
                &&& 0 <= e < cells.len()
                &&& ylo * grid_w <= cells[e] < (yhi + 1) * grid_w
                &&& exists|y: int, x: int|
                    ylo <= y <= yhi && xlo <= x <= xhi && cells[e] == #[trigger] cell_at(
                        y,
                        x,
                        grid_w,
                    )
            },
        block(cells, grid_w, ylo, yhi, xlo, xhi).no_duplicates(),
        forall|y: int, x: int, e: int|
            ylo <= y <= yhi && xlo <= x <= xhi && #[trigger] members(
                cells,
                cell_at(y, x, grid_w),
            ).contains(e) ==> block(cells, grid_w, ylo, yhi, xlo, xhi).contains(e),
    decreases yhi - ylo + 1,
{
    if yhi >= ylo {
        let head = block(cells, grid_w, ylo, yhi - 1, xlo, xhi);
        let last = span(cells, grid_w, yhi, xlo, xhi);
        let all = block(cells, grid_w, ylo, yhi, xlo, xhi);
        lemma_block(cells, grid_w, ylo, yhi - 1, xlo, xhi);
        lemma_span(cells, grid_w, yhi, xlo, xhi);
        assert((yhi + 1) * grid_w == yhi * grid_w + grid_w && (yhi - 1 + 1) * grid_w == yhi
            * grid_w) by (nonlinear_arith);
        assert(ylo * grid_w <= yhi * grid_w) by (nonlinear_arith)
            requires
                ylo <= yhi,
                grid_w >= 0,
        ;
        assert forall|t: int| 0 <= t < all.len() implies {
            let e = #[trigger] all[t];
            &&& 0 <= e < cells.len()
            &&& ylo * grid_w <= cells[e] < (yhi + 1) * grid_w
            &&& exists|y: int, x: int|
                ylo <= y <= yhi && xlo <= x <= xhi && cells[e] == #[trigger] cell_at(y, x, grid_w)
        } by {
            if t < head.len() {
                assert(all[t] == head[t]);
                let e = head[t];
                let (y, x) = choose|y: int, x: int|
                    ylo <= y <= yhi - 1 && xlo <= x <= xhi && cells[e] == #[trigger] cell_at(
                        y,
                        x,
                        grid_w,
                    );
                assert(ylo <= y <= yhi && xlo <= x <= xhi && cells[e] == cell_at(y, x, grid_w));
            } else {
                assert(all[t] == last[t - head.len()]);
                let e = last[t - head.len()];
                let x = cells[e] - yhi * grid_w;
                assert(ylo <= yhi <= yhi && xlo <= x <= xhi && cells[e] == cell_at(yhi, x, grid_w));
            }
        }
        assert forall|i: int, j: int| 0 <= i < head.len() && 0 <= j < last.len() implies head[i]
            != last[j] by {
            assert(cells[head[i]] < yhi * grid_w);
            assert(cells[last[j]] >= yhi * grid_w + xlo);
        }
        lemma_no_dup_in_concat(head, last);
        assert forall|y: int, x: int, e: int|
            ylo <= y <= yhi && xlo <= x <= xhi && #[trigger] members(
                cells,
                cell_at(y, x, grid_w),
            ).contains(e) implies all.contains(e) by {
            if y == yhi {
                assert(last.contains(e));
                let t = choose|t: int| 0 <= t < last.len() && last[t] == e;
                assert(all[head.len() + t] == e);
            } else {
                assert(head.contains(e));
                let t = choose|t: int| 0 <= t < head.len() && head[t] == e;
                assert(all[t] == e);
            }
        }
    }
}

/// Two coordinates that are no farther apart than the side of a cell (or any
/// two coordinates, in a grid of one cell) have the same or neighbouring cell
/// coordinates.
pub proof fn lemma_near_cells(x: int, z: int, reach: int, bin: int, grid_w: int)
    requires
        bin >= 1,
        grid_w >= 1,
        reach <= bin || grid_w == 1,
        -reach <= z - x <= reach,
    ensures
        low(cell_coordinate(x, bin, grid_w)) <= cell_coordinate(z, bin, grid_w) <= high(
            cell_coordinate(x, bin, grid_w),
            grid_w,
        ),
{
    if grid_w > 1 {
        assert(x > 0 ==> x / bin >= 0) by (nonlinear_arith)
            requires
                bin >= 1,
        ;
        assert(z > 0 ==> z / bin >= 0) by (nonlinear_arith)
            requires
                bin >= 1,
        ;
        assert(z <= x + bin ==> z / bin <= x / bin + 1) by (nonlinear_arith)
            requires
                bin >= 1,
        ;
        assert(x <= z + bin ==> x / bin <= z / bin + 1) by (nonlinear_arith)
            requires
                bin >= 1,
        ;
        assert(z <= bin ==> z / bin <= 1) by (nonlinear_arith)
            requires
                bin >= 1,
        ;
        assert(x <= bin ==> x / bin <= 1) by (nonlinear_arith)
            requires
                bin >= 1,
        ;
    }
}

impl Grid {
    /// The tables of the grid agree with each other: every particle has a
    /// cell, every cell its count and its offset, and the particles of a cell
    /// stand together in `bins`, in ascending order, from the offset of the
    /// cell on.
    pub open spec fn wf(self) -> bool {
        &&& self.grid_w >= 1
        &&& self.bin_size >= 1
        &&& self.area() < usize::MAX
        &&& forall|i: int| 0 <= i < self.cells@.len() ==> 0 <= #[trigger] self.cells@[i] < self.area()
        &&& self.counts@.len() == self.area()
        &&& forall|c: int|
            0 <= c < self.area() ==> #[trigger] self.counts@[c] == members(self.cells@, c).len()
        &&& self.offsets@.len() == self.area() + 1
        &&& forall|c: int|
            0 <= c <= self.area() ==> #[trigger] self.offsets@[c] == start_of(self.cells@, c)
        &&& self.bins@.len() == self.cells@.len()
        &&& forall|c: int, t: int|
            0 <= c < self.area() && 0 <= t < members(self.cells@, c).len() ==> self.bins@[start_of(
                self.cells@,
                c,
            ) + t] as int == #[trigger] members(self.cells@, c)[t]
    }

    /// A grid that bins some positions is well-formed.
    pub proof fn lemma_binned_wf(self, positions: Seq<Vec2>)
        requires
            self.bins_positions(positions),
            self.area() < usize::MAX,
        ensures
            self.wf(),
    {
        assert forall|i: int| 0 <= i < self.cells@.len() implies 0 <= #[trigger] self.cells@[i]
            < self.area() by {
            crate::grid::lemma_cell_index_bound(
                positions[i],
                self.bin_size as int,
                self.grid_w as int,
            );
        }
    }

    /// The particles of the cell of `pos` and of the cells around it, row
    /// after row and cell after cell, those of one cell in ascending order.
    pub fn neighbors(&self, pos: &Vec2) -> (out: Vec<usize>)
        requires
            self.wf(),
        ensures
            ints(out@) == around(self.cells@, self.bin_size as int, self.grid_w as int, *pos),
    {
        let gw: usize = self.grid_w;
        let cx: usize = coordinate_of(pos.x, self.bin_size, gw);
        let cy: usize = coordinate_of(pos.y, self.bin_size, gw);
        let xlo: usize = if cx > 0 {
            cx - 1
        } else {
            0
        };
        let xhi: usize = if cx + 1 < gw {
            cx + 1
        } else {
            gw - 1
        };
        let ylo: usize = if cy > 0 {
            cy - 1
        } else {
            0
        };
        let yhi: usize = if cy + 1 < gw {
            cy + 1
        } else {
            gw - 1
        };
        let ghost cells = self.cells@;
        let mut out: Vec<usize> = Vec::new();
        let mut y: usize = ylo;
        proof {
            assert(ints(out@) =~= block(cells, gw as int, ylo as int, ylo - 1, xlo as int, xhi as int));
        }
        while y <= yhi
            invariant
                self.wf(),
                gw == self.grid_w,
                cells == self.cells@,
                xlo <= xhi < gw,
                ylo <= y <= yhi + 1,
                yhi < gw,
                ints(out@) == block(cells, gw as int, ylo as int, y - 1, xlo as int, xhi as int),
            decreases yhi + 1 - y,
        {
            let ghost rows = ints(out@);
            let mut x: usize = xlo;
            proof {
                assert(ints(out@) =~= rows + span(cells, gw as int, y as int, xlo as int, xlo - 1));
            }
            while x <= xhi
                invariant
                    self.wf(),
                    gw == self.grid_w,
                    cells == self.cells@,
                    xlo <= x <= xhi + 1,
                    xhi < gw,
                    y < gw,
                    ints(out@) == rows + span(cells, gw as int, y as int, xlo as int, x - 1),
                decreases xhi + 1 - x,
            {
                proof {
                    assert(0 <= y * gw + x < gw * gw && 0 <= y * gw) by (nonlinear_arith)
                        requires
                            0 <= y < gw,
                            0 <= x < gw,
                    ;
                }
                let c: usize = y * gw + x;
                let ghost done = ints(out@);
                let ghost cell = members(cells, c as int);
                proof {
                    lemma_start_of(cells, c as int, c + 1);
                    lemma_start_of(cells, c + 1, self.area());
                    crate::grid::lemma_start_of_total(cells, self.area());
                    assert(start_of(cells, c + 1) == start_of(cells, c as int) + cell.len());
                }
                let from: usize = self.offsets[c];
                let to: usize = self.offsets[c + 1];
                let mut t: usize = from;
                proof {
                    assert(ints(out@) =~= done + cell.take(0));
                }
                while t < to
                    invariant
                        self.wf(),
                        cells == self.cells@,
                        c < self.area(),
                        cell == members(cells, c as int),
                        from == start_of(cells, c as int),
                        to == from + cell.len(),
                        to <= self.bins@.len(),
                        from <= t <= to,
                        ints(out@) == done + cell.take(t - from),
                    decreases to - t,
                {
                    let ghost so_far = ints(out@);
                    let v: usize = self.bins[t];
                    out.push(v);
                    proof {
                        assert(v as int == cell[t - from]);
                        assert(ints(out@) =~= so_far.push(v as int));
                        assert(cell.take(t - from + 1) =~= cell.take(t - from).push(cell[t - from]));
                        assert(ints(out@) =~= done + cell.take(t - from + 1));
                    }
                    t += 1;
                }
                proof {
                    assert(cell.take(to - from) =~= cell);
                    assert(ints(out@) =~= rows + span(
                        cells,
                        gw as int,
                        y as int,
                        xlo as int,
                        x as int,
                    ));
                }
                x += 1;
            }
            y += 1;
        }
        out
    }
}

/// Every particle that is no farther from `p` along either axis than the
/// side of a cell is among the particles around `p`, and so is every particle
/// in a grid of one cell.
pub proof fn lemma_around_holds_near(grid: Grid, positions: Seq<Vec2>, p: Vec2, j: int, reach: int)
    requires
        grid.bins_positions(positions),
        reach <= grid.bin_size || grid.grid_w == 1,
        0 <= j < positions.len(),
        -reach <= positions[j].x - p.x <= reach,
        -reach <= positions[j].y - p.y <= reach,
    ensures
        around(grid.cells@, grid.bin_size as int, grid.grid_w as int, p).contains(j),
{
    let (bin, gw) = (grid.bin_size as int, grid.grid_w as int);
    let q = positions[j];
    let cx = cell_coordinate(p.x as int, bin, gw);
    let cy = cell_coordinate(p.y as int, bin, gw);
    let qx = cell_coordinate(q.x as int, bin, gw);
    let qy = cell_coordinate(q.y as int, bin, gw);
    lemma_near_cells(p.x as int, q.x as int, reach, bin, gw);
    lemma_near_cells(p.y as int, q.y as int, reach, bin, gw);
    assert(grid.cells@[j] == cell_index(q, bin, gw));
    lemma_members(grid.cells@, cell_at(qy, qx, gw));
    assert(members(grid.cells@, cell_at(qy, qx, gw)).contains(j));
    assert(0 <= cx < gw) by {
        crate::grid::lemma_cell_index_bound(p, bin, gw);
        assert(p.x > 0 ==> p.x as int / bin >= 0) by (nonlinear_arith)
            requires
                bin >= 1,
        ;
    }
    lemma_block(grid.cells@, gw, low(cy), high(cy, gw), low(cx), high(cx, gw));
}

/// The particles around `p` are named once each, and each lies in the cell of
/// `p` or in a cell next to it.
pub proof fn lemma_around_is_close(grid: Grid, positions: Seq<Vec2>, p: Vec2)
    requires
        grid.bins_positions(positions),
    ensures
        around(grid.cells@, grid.bin_size as int, grid.grid_w as int, p).no_duplicates(),
        forall|t: int|
            0 <= t < around(grid.cells@, grid.bin_size as int, grid.grid_w as int, p).len() ==> {
                let e = #[trigger] around(
                    grid.cells@,
                    grid.bin_size as int,
                    grid.grid_w as int,
                    p,
                )[t];
                let cx = cell_coordinate(p.x as int, grid.bin_size as int, grid.grid_w as int);
                let cy = cell_coordinate(p.y as int, grid.bin_size as int, grid.grid_w as int);
                &&& 0 <= e < positions.len()
                &&& exists|y: int, x: int|
                    low(cy) <= y <= high(cy, grid.grid_w as int) && low(cx) <= x <= high(
                        cx,
                        grid.grid_w as int,
                    ) && cell_index(positions[e], grid.bin_size as int, grid.grid_w as int)
                        == #[trigger] cell_at(y, x, grid.grid_w as int)
            },
{
    let (bin, gw) = (grid.bin_size as int, grid.grid_w as int);
    let cx = cell_coordinate(p.x as int, bin, gw);
    let cy = cell_coordinate(p.y as int, bin, gw);
    assert(0 <= cx < gw) by {
        assert(p.x > 0 ==> p.x as int / bin >= 0) by (nonlinear_arith)
            requires
                bin >= 1,
        ;
    }
    lemma_block(grid.cells@, gw, low(cy), high(cy, gw), low(cx), high(cx, gw));
    let all = around(grid.cells@, bin, gw, p);
    assert forall|t: int| 0 <= t < all.len() implies {
        let e = #[trigger] all[t];
        &&& 0 <= e < positions.len()
        &&& exists|y: int, x: int|
            low(cy) <= y <= high(cy, gw) && low(cx) <= x <= high(cx, gw) && cell_index(
                positions[e],
                bin,
                gw,
            ) == #[trigger] cell_at(y, x, gw)
    } by {
        let e = all[t];
        let (y, x) = choose|y: int, x: int|
            low(cy) <= y <= high(cy, gw) && low(cx) <= x <= high(cx, gw) && grid.cells@[e]
                == #[trigger] cell_at(y, x, gw);
        assert(grid.cells@[e] == cell_index(positions[e], bin, gw));
        assert(low(cy) <= y <= high(cy, gw) && low(cx) <= x <= high(cx, gw) && cell_index(
            positions[e],
            bin,
            gw,
        ) == cell_at(y, x, gw));
    }
}

/// A cell index names one row and one column.
pub proof fn lemma_one_cell(y: int, x: int, v: int, u: int, grid_w: int)
    requires
        0 <= x < grid_w,
        0 <= u < grid_w,
        cell_at(y, x, grid_w) == cell_at(v, u, grid_w),
    ensures
        y == v,
        x == u,
{
    assert(y == v) by (nonlinear_arith)
        requires
            0 <= x < grid_w,
            0 <= u < grid_w,
            y * grid_w + x == v * grid_w + u,
    ;
}

/// Two coordinates inside the grid whose cell coordinates are the same or
/// neighbours are less than two cells apart.
pub proof fn lemma_close_coordinates(x: int, z: int, bin: int, grid_w: int)
    requires
        bin >= 1,
        grid_w >= 1,
        0 <= x < grid_w * bin,
        0 <= z < grid_w * bin,
        low(cell_coordinate(x, bin, grid_w)) <= cell_coordinate(z, bin, grid_w) <= high(
            cell_coordinate(x, bin, grid_w),
            grid_w,
        ),
    ensures
        -2 * bin < z - x < 2 * bin,
{
    let (a, b) = (x / bin, z / bin);
    assert(a * bin <= x < a * bin + bin && b * bin <= z < b * bin + bin && 0 <= a < grid_w && 0
        <= b < grid_w) by (nonlinear_arith)
        requires
            bin >= 1,
            0 <= x < grid_w * bin,
            0 <= z < grid_w * bin,
            a == x / bin,
            b == z / bin,
    ;
    assert(cell_coordinate(x, bin, grid_w) == a);
    assert(cell_coordinate(z, bin, grid_w) == b);
    assert(-2 * bin < z - x < 2 * bin) by (nonlinear_arith)
        requires
            a * bin <= x < a * bin + bin,
            b * bin <= z < b * bin + bin,
            a - 1 <= b <= a + 1,
            bin >= 1,
    ;
}

/// A particle that the grid names around `p` is, if both lie inside the
/// grid, less than two cells from `p` along each axis.
pub proof fn lemma_around_is_within(grid: Grid, positions: Seq<Vec2>, p: Vec2, t: int)
    requires
        grid.bins_positions(positions),
        0 <= t < around(grid.cells@, grid.bin_size as int, grid.grid_w as int, p).len(),
        0 <= p.x < grid.grid_w * grid.bin_size,
        0 <= p.y < grid.grid_w * grid.bin_size,
        ({
            let q = positions[around(grid.cells@, grid.bin_size as int, grid.grid_w as int, p)[t]];
            0 <= q.x < grid.grid_w * grid.bin_size && 0 <= q.y < grid.grid_w * grid.bin_size
        }),
    ensures
        ({
            let q = positions[around(grid.cells@, grid.bin_size as int, grid.grid_w as int, p)[t]];
            &&& -2 * grid.bin_size < q.x - p.x < 2 * grid.bin_size
            &&& -2 * grid.bin_size < q.y - p.y < 2 * grid.bin_size
        }),
{
    let (bin, gw) = (grid.bin_size as int, grid.grid_w as int);
    let e = around(grid.cells@, bin, gw, p)[t];
    let q = positions[e];
    let cx = cell_coordinate(p.x as int, bin, gw);
    let cy = cell_coordinate(p.y as int, bin, gw);
    let qx = cell_coordinate(q.x as int, bin, gw);
    let qy = cell_coordinate(q.y as int, bin, gw);
    lemma_around_is_close(grid, positions, p);
    let (y, x) = choose|y: int, x: int|
        low(cy) <= y <= high(cy, gw) && low(cx) <= x <= high(cx, gw) && cell_index(q, bin, gw)
            == #[trigger] cell_at(y, x, gw);
    assert(0 <= cx < gw && 0 <= qx < gw) by {
        assert(p.x > 0 ==> p.x as int / bin >= 0) by (nonlinear_arith)
            requires
                bin >= 1,
        ;
        assert(q.x > 0 ==> q.x as int / bin >= 0) by (nonlinear_arith)
            requires
                bin >= 1,
        ;
    }
    lemma_one_cell(y, x, qy, qx, gw);
    lemma_close_coordinates(p.x as int, q.x as int, bin, gw);
    lemma_close_coordinates(p.y as int, q.y as int, bin, gw);
}

} // verus!
