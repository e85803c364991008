//! The uniform grid: particles binned by the square cell they lie in.
//!
//! The world is cut into `grid_w` times `grid_w` cells whose side is at least
//! the radius of the area of effect, so that all particles within reach of a
//! position lie in its cell or in one of the eight around it. Binning takes
//! three passes: count the particles of each cell, sum the counts into the
//! offset at which each cell begins, and put each particle into its cell.

use crate::vector::Vec2;
use vstd::prelude::*;

verus! {

/// The cell coordinate of the raw coordinate `x` for cells of side `bin`, of
/// which there are `grid_w` along a side. Coordinates outside the grid count
/// for the nearest cell.
pub open spec fn cell_coordinate(x: int, bin: int, grid_w: int) -> int {
    if x <= 0 {
        0
    } else if x / bin >= grid_w {
        grid_w - 1
    } else {
        x / bin
    }
}

/// The index of the cell in the given row and column: row after row,
/// `grid_w` cells to a row.
pub open spec fn cell_at(row: int, column: int, grid_w: int) -> int {
    row * grid_w + column
}

/// The index of the cell of `p`.
pub open spec fn cell_index(p: Vec2, bin: int, grid_w: int) -> int {
    cell_at(
        cell_coordinate(p.y as int, bin, grid_w),
        cell_coordinate(p.x as int, bin, grid_w),
        grid_w,
    )
}

/// Of the particles whose cell indices are `cells`, those of cell `c`, in
/// ascending order.
pub open spec fn members(cells: Seq<usize>, c: int) -> Seq<int>
    decreases cells.len(),
{
    if cells.len() == 0 {
        Seq::empty()
    } else if cells.last() == c {
        members(cells.drop_last(), c).push(cells.len() - 1)
    } else {
        members(cells.drop_last(), c)
    }
}

/// Number of particles in the cells below `c`.
pub open spec fn start_of(cells: Seq<usize>, c: int) -> int
    decreases c,
{
    if c <= 0 {
        0
    } else {
        start_of(cells, c - 1) + members(cells, c - 1).len()
    }
}

/// The members of a cell are the particles of that cell and no others, each
/// once and in ascending order.
pub proof fn lemma_members(cells: Seq<usize>, c: int)
    ensures
        members(cells, c).len() <= cells.len(),
        forall|t: int|
            0 <= t < members(cells, c).len() ==> 0 <= (#[trigger] members(cells, c)[t])
                < cells.len() && cells[members(cells, c)[t]] == c,
        forall|s: int, t: int|
            0 <= s < t < members(cells, c).len() ==> members(cells, c)[s] < members(cells, c)[t],
        forall|i: int| 0 <= i < cells.len() && cells[i] == c ==> members(cells, c).contains(i),
    decreases cells.len(),
{
    if cells.len() > 0 {
        let rest = cells.drop_last();
        lemma_members(rest, c);
        let m = members(cells, c);
        let r = members(rest, c);
        assert forall|t: int| 0 <= t < m.len() implies 0 <= (#[trigger] m[t]) < cells.len()
            && cells[m[t]] == c by {
            if t < r.len() {
                assert(m[t] == r[t]);
                assert(rest[r[t]] == c);
            }
        }
        assert forall|s: int, t: int| 0 <= s < t < m.len() implies m[s] < m[t] by {
            if t < r.len() {
                assert(m[s] == r[s] && m[t] == r[t]);
            } else {
                assert(m[s] == r[s]);
                assert(r[s] < rest.len());
            }
        }
        assert forall|i: int| 0 <= i < cells.len() && cells[i] == c implies m.contains(i) by {
            if i < cells.len() - 1 {
                assert(rest[i] == c);
                assert(r.contains(i));
                let t = choose|t: int| 0 <= t < r.len() && r[t] == i;
                assert(m[t] == i);
            } else {
                assert(m[m.len() - 1] == i);
            }
        }
    }
}

/// A cell has as many members among the first particles as among all, or
/// fewer, and they are its first members among all; the next particle is the
/// next member of its own cell.
pub proof fn lemma_members_grow(cells: Seq<usize>, i: int, c: int)
    requires
        0 <= i <= cells.len(),
    ensures
        members(cells.take(i), c).len() <= members(cells, c).len(),
        forall|t: int|
            0 <= t < members(cells.take(i), c).len() ==> #[trigger] members(cells.take(i), c)[t]
                == members(cells, c)[t],
        i < cells.len() && cells[i] == c ==> members(cells.take(i), c).len() < members(
            cells,
            c,
        ).len() && members(cells, c)[members(cells.take(i), c).len() as int] == i,
    decreases cells.len() - i,
{
    if i < cells.len() {
        lemma_members_grow(cells, i + 1, c);
        assert(cells.take(i + 1).drop_last() =~= cells.take(i));
        assert(cells.take(i + 1).last() == cells[i]);
        let next = members(cells.take(i + 1), c);
        let here = members(cells.take(i), c);
        assert(cells.take(i + 1).len() == i + 1);
        if cells[i] == c {
            assert(next == here.push(i));
            assert(next[here.len() as int] == i);
            assert forall|t: int| 0 <= t < here.len() implies #[trigger] here[t] == members(
                cells,
                c,
            )[t] by {
                assert(next[t] == here[t]);
            }
        } else {
            assert(next == here);
        }
    } else {
        assert(cells.take(i) =~= cells);
    }
}

/// Cells begin in ascending order, each where the one before it ends.
pub proof fn lemma_start_of(cells: Seq<usize>, a: int, b: int)
    requires
        0 <= a <= b,
    ensures
        0 <= start_of(cells, a) <= start_of(cells, b),
        a < b ==> start_of(cells, a) + members(cells, a).len() <= start_of(cells, b),
    decreases b,
{
    if a < b {
        lemma_start_of(cells, a, b - 1);
    } else {
        if a > 0 {
            lemma_start_of(cells, 0, a - 1);
            lemma_start_of(cells, a - 1, a - 1);
        }
    }
}

/// If every particle has a cell below `g`, the cells below `g` hold all
/// particles.
pub proof fn lemma_start_of_total(cells: Seq<usize>, g: int)
    requires
        g >= 0,
        forall|i: int| 0 <= i < cells.len() ==> 0 <= #[trigger] cells[i] < g,
    ensures
        start_of(cells, g) == cells.len(),
    decreases cells.len(),
{
    if cells.len() == 0 {
        lemma_start_of_nobody(cells, g);
    } else {
        let rest = cells.drop_last();
        assert forall|i: int| 0 <= i < rest.len() implies 0 <= #[trigger] rest[i] < g by {
            assert(rest[i] == cells[i]);
        }
        lemma_start_of_total(rest, g);
        lemma_start_of_one_more(cells, g);
    }
}

/// Without particles every cell begins at zero.
proof fn lemma_start_of_nobody(cells: Seq<usize>, c: int)
    requires
        cells.len() == 0,
    ensures
        start_of(cells, c) == 0,
    decreases c,
{
    if c > 0 {
        lemma_start_of_nobody(cells, c - 1);
    }
}

/// One more particle moves the beginning of every cell above its own by one,
/// and no other.
proof fn lemma_start_of_one_more(cells: Seq<usize>, c: int)
    requires
        cells.len() > 0,
    ensures
        start_of(cells, c) == start_of(cells.drop_last(), c) + if cells.last() < c {
            1int
        } else {
            0int
        },
    decreases c,
{
    if c > 0 {
        lemma_start_of_one_more(cells, c - 1);
    }
}

/// The cell coordinate of the raw coordinate `x`.
pub fn coordinate_of(x: i64, bin: i64, grid_w: usize) -> (c: usize)
    requires
        bin >= 1,
        grid_w >= 1,
    ensures
        c == cell_coordinate(x as int, bin as int, grid_w as int),
        c < grid_w,
{
    if x <= 0 {
        0
    } else {
        let q: i64 = x / bin;
        assert(q >= 0) by (nonlinear_arith)
            requires
                x > 0,
                bin >= 1,
                q == x / bin,
        ;
        if q as u64 >= grid_w as u64 {
            grid_w - 1
        } else {
            q as usize
        }
    }
}

/// The grid over some particles.
#[derive(Debug)]
pub struct Grid {
    /// Number of cells along a side.
    pub grid_w: usize,
    /// Side of a cell.
    pub bin_size: i64,
    /// For each particle, the index of its cell.
    pub cells: Vec<usize>,
    /// For each cell, the number of its particles.
    pub counts: Vec<usize>,
    /// For each cell, where its particles begin in `bins`; and, last, the
    /// number of all particles.
    pub offsets: Vec<usize>,
    /// The particles, cell after cell.
    pub bins: Vec<usize>,
}

impl Grid {
    /// Number of cells.
    pub open spec fn area(self) -> int {
        self.grid_w * self.grid_w
    }

    /// The grid bins the particles at `positions`: every particle has the
    /// index of its cell, every cell its count and its offset, and the
    /// particles of a cell stand together in `bins`, in ascending order, from
    /// the offset of the cell on.
    pub open spec fn bins_positions(self, positions: Seq<Vec2>) -> bool {
        &&& self.grid_w >= 1
        &&& self.bin_size >= 1
        &&& self.cells@.len() == positions.len()
        &&& forall|i: int|
            0 <= i < positions.len() ==> #[trigger] self.cells@[i] == cell_index(
                positions[i],
                self.bin_size as int,
                self.grid_w as int,
            )
        &&& self.counts@.len() == self.area()
        &&& forall|c: int|
            0 <= c < self.area() ==> #[trigger] self.counts@[c] == members(self.cells@, c).len()
        &&& self.offsets@.len() == self.area() + 1
        &&& forall|c: int|
            0 <= c <= self.area() ==> #[trigger] self.offsets@[c] == start_of(self.cells@, c)
        &&& self.bins@.len() == positions.len()
        &&& forall|c: int, t: int|
            0 <= c < self.area() && 0 <= t < members(self.cells@, c).len() ==> self.bins@[start_of(
                self.cells@,
                c,
            ) + t] as int == #[trigger] members(self.cells@, c)[t]
    }
}

/// A cell index is below the number of cells.
pub proof fn lemma_cell_index_bound(p: Vec2, bin: int, grid_w: int)
    requires
        bin >= 1,
        grid_w >= 1,
    ensures
        0 <= cell_index(p, bin, grid_w) < grid_w * grid_w,
{
    let cx = cell_coordinate(p.x as int, bin, grid_w);
    let cy = cell_coordinate(p.y as int, bin, grid_w);
    assert(0 <= cx < grid_w && 0 <= cy < grid_w) by {
        assert(p.x > 0 ==> p.x as int / bin >= 0) by (nonlinear_arith)
            requires
                bin >= 1,
        ;
        assert(p.y > 0 ==> p.y as int / bin >= 0) by (nonlinear_arith)
            requires
                bin >= 1,
        ;
    }
    assert(0 <= cy * grid_w + cx < grid_w * grid_w) by (nonlinear_arith)
        requires
            0 <= cx < grid_w,
            0 <= cy < grid_w,
    ;
}

/// A vector of `n` zeros.
fn zeros(n: usize) -> (v: Vec<usize>)
    ensures
        v@.len() == n,
        forall|i: int| 0 <= i < n ==> #[trigger] v@[i] == 0,
{
    let mut v: Vec<usize> = Vec::new();
    let mut i: usize = 0;
    while i < n
        invariant
            i <= n,
            v@.len() == i,
            forall|a: int| 0 <= a < i ==> #[trigger] v@[a] == 0,
        decreases n - i,
    {
        v.push(0);
        i += 1;
    }
    v
}

/// The index of the cell of `p`.
pub fn index_of(p: &Vec2, bin: i64, grid_w: usize) -> (c: usize)
    requires
        bin >= 1,
        grid_w >= 1,
        grid_w * grid_w <= usize::MAX,
    ensures
        c == cell_index(*p, bin as int, grid_w as int),
        c < grid_w * grid_w,
{
    let cx: usize = coordinate_of(p.x, bin, grid_w);
    let cy: usize = coordinate_of(p.y, bin, grid_w);
    proof {
        lemma_cell_index_bound(*p, bin as int, grid_w as int);
        assert(0 <= cy * grid_w <= cy * grid_w + cx) by (nonlinear_arith)
            requires
                cy >= 0,
                grid_w >= 1,
                cx >= 0,
        ;
    }
    cy * grid_w + cx
}

/// First pass: the cell of every particle, and the number of particles of
/// every cell.
fn count_pass(positions: &Vec<Vec2>, bin: i64, grid_w: usize) -> (r: (Vec<usize>, Vec<usize>))
    requires
        bin >= 1,
        grid_w >= 1,
        grid_w * grid_w <= usize::MAX,
    ensures
        r.0@.len() == positions@.len(),
        forall|i: int|
            0 <= i < positions@.len() ==> #[trigger] r.0@[i] == cell_index(
                positions@[i],
                bin as int,
                grid_w as int,
            ),
        r.1@.len() == grid_w * grid_w,
        forall|c: int| 0 <= c < grid_w * grid_w ==> #[trigger] r.1@[c] == members(r.0@, c).len(),
{
    let area: usize = grid_w * grid_w;
    let n: usize = positions.len();
    let mut cells: Vec<usize> = Vec::new();
    let mut counts: Vec<usize> = zeros(area);
    let mut i: usize = 0;
    while i < n
        invariant
            i <= n,
            n == positions@.len(),
            bin >= 1,
            grid_w >= 1,
            area == grid_w * grid_w,
            cells@.len() == i,
            forall|a: int|
                0 <= a < i ==> #[trigger] cells@[a] == cell_index(
                    positions@[a],
                    bin as int,
                    grid_w as int,
                ),
            counts@.len() == area,
            forall|c: int| 0 <= c < area ==> #[trigger] counts@[c] == members(cells@, c).len(),
        decreases n - i,
    {
        let c0: usize = index_of(&positions[i], bin, grid_w);
        let ghost before = cells@;
        proof {
            lemma_members(before, c0 as int);
        }
        cells.push(c0);
        counts[c0] = counts[c0] + 1;
        proof {
            assert(cells@.drop_last() =~= before);
            assert forall|c: int| 0 <= c < area implies #[trigger] counts@[c] == members(
                cells@,
                c,
            ).len() by {
                if c == c0 {
                    assert(members(cells@, c) == members(before, c).push(i as int));
                } else {
                    assert(members(cells@, c) == members(before, c));
                }
            }
        }
        i += 1;
    }
    (cells, counts)
}

/// Second pass: where the particles of every cell begin, and, last, the
/// number of all particles.
fn offsets_pass(cells: &Vec<usize>, counts: &Vec<usize>) -> (offsets: Vec<usize>)
    requires
        counts@.len() < usize::MAX,
        forall|i: int| 0 <= i < cells@.len() ==> 0 <= #[trigger] cells@[i] < counts@.len(),
        forall|c: int|
            0 <= c < counts@.len() ==> #[trigger] counts@[c] == members(cells@, c).len(),
    ensures
        offsets@.len() == counts@.len() + 1,
        forall|c: int| 0 <= c <= counts@.len() ==> #[trigger] offsets@[c] == start_of(cells@, c),
        offsets@[counts@.len() as int] == cells@.len(),
{
    let area: usize = counts.len();
    let ghost total: usize = cells.len();
    let mut offsets: Vec<usize> = Vec::new();
    let mut run: usize = 0;
    let mut c: usize = 0;
    proof {
        lemma_start_of_total(cells@, area as int);
    }
    while c < area
        invariant
            c <= area,
            area == counts@.len(),
            total == cells@.len(),
            start_of(cells@, area as int) == total,
            forall|a: int|
                0 <= a < counts@.len() ==> #[trigger] counts@[a] == members(cells@, a).len(),
            offsets@.len() == c,
            forall|a: int| 0 <= a < c ==> #[trigger] offsets@[a] == start_of(cells@, a),
            run == start_of(cells@, c as int),
        decreases area - c,
    {
        proof {
            lemma_start_of(cells@, c as int, area as int);
        }
        offsets.push(run);
        run = run + counts[c];
        c += 1;
    }
    offsets.push(run);
    offsets
}

/// Third pass: every particle is put at the next free place of its cell.
fn scatter_pass(cells: &Vec<usize>, offsets: &Vec<usize>) -> (bins: Vec<usize>)
    requires
        offsets@.len() >= 1,
        forall|i: int| 0 <= i < cells@.len() ==> 0 <= #[trigger] cells@[i] < offsets@.len() - 1,
        forall|c: int| 0 <= c < offsets@.len() ==> #[trigger] offsets@[c] == start_of(cells@, c),
    ensures
        bins@.len() == cells@.len(),
        forall|c: int, t: int|
            0 <= c < offsets@.len() - 1 && 0 <= t < members(cells@, c).len() ==> bins@[start_of(
                cells@,
                c,
            ) + t] as int == #[trigger] members(cells@, c)[t],
{
    let n: usize = cells.len();
    let area: usize = offsets.len() - 1;
    let mut bins: Vec<usize> = zeros(n);
    let mut current: Vec<usize> = zeros(area);
    let mut i: usize = 0;
    proof {
        lemma_start_of_total(cells@, area as int);
        assert(cells@.take(0) =~= Seq::<usize>::empty());
    }
    while i < n
        invariant
            i <= n,
            n == cells@.len(),
            area == offsets@.len() - 1,
            start_of(cells@, area as int) == n,
            forall|a: int| 0 <= a < cells@.len() ==> 0 <= #[trigger] cells@[a] < area,
            forall|c: int| 0 <= c <= area ==> #[trigger] offsets@[c] == start_of(cells@, c),
            bins@.len() == n,
            current@.len() == area,
            forall|c: int|
                0 <= c < area ==> #[trigger] current@[c] == members(
                    cells@.take(i as int),
                    c,
                ).len(),
            forall|c: int, t: int|
                0 <= c < area && 0 <= t < members(cells@.take(i as int), c).len()
                    ==> bins@[start_of(cells@, c) + t] as int == #[trigger] members(cells@, c)[t],
        decreases n - i,
    {
        let c0: usize = cells[i];
        let ghost here = members(cells@.take(i as int), c0 as int).len();
        proof {
            lemma_members_grow(cells@, i as int, c0 as int);
            lemma_start_of(cells@, c0 as int, c0 as int + 1);
            lemma_start_of(cells@, c0 as int + 1, area as int);
            assert(start_of(cells@, c0 as int + 1) == start_of(cells@, c0 as int) + members(
                cells@,
                c0 as int,
            ).len());
        }
        let slot: usize = offsets[c0] + current[c0];
        let ghost before = bins@;
        bins[slot] = i;
        current[c0] = current[c0] + 1;
        proof {
            assert(cells@.take(i + 1).drop_last() =~= cells@.take(i as int));
            assert(cells@.take(i + 1).last() == c0);
            assert forall|c: int| 0 <= c < area implies #[trigger] current@[c] == members(
                cells@.take(i + 1),
                c,
            ).len() by {
                if c == c0 {
                    assert(members(cells@.take(i + 1), c) == members(
                        cells@.take(i as int),
                        c,
                    ).push(i as int));
                } else {
                    assert(members(cells@.take(i + 1), c) == members(cells@.take(i as int), c));
                }
            }
            assert forall|c: int, t: int|
                0 <= c < area && 0 <= t < members(cells@.take(i + 1), c).len() implies bins@[start_of(
                cells@,
                c,
            ) + t] as int == #[trigger] members(cells@, c)[t] by {
                lemma_members_grow(cells@, i as int, c);
                lemma_members_grow(cells@, i as int + 1, c);
                lemma_start_of(cells@, c, c + 1);
                lemma_start_of(cells@, c + 1, area as int);
                assert(0 <= start_of(cells@, c) + t < n);
                if c == c0 && t == here {
                } else {
                    if c == c0 {
                        assert(members(cells@.take(i + 1), c) == members(
                            cells@.take(i as int),
                            c,
                        ).push(i as int));
                    } else {
                        assert(members(cells@.take(i + 1), c) == members(
                            cells@.take(i as int),
                            c,
                        ));
                        if c < c0 {
                            lemma_start_of(cells@, c, c0 as int);
                        } else {
                            lemma_start_of(cells@, c0 as int, c);
                        }
                    }
                    assert(start_of(cells@, c) + t != slot);
                    assert(bins@[start_of(cells@, c) + t] == before[start_of(cells@, c) + t]);
                }
            }
        }
        i += 1;
    }
    proof {
        assert(cells@.take(n as int) =~= cells@);
    }
    bins
}

impl Grid {
    /// Bins the particles at `positions` into a grid of `grid_w` times
    /// `grid_w` cells of side `bin_size`.
    pub fn build(positions: &Vec<Vec2>, bin_size: i64, grid_w: usize) -> (g: Grid)
        requires
            bin_size >= 1,
            grid_w >= 1,
            grid_w * grid_w < usize::MAX,
        ensures
            g.grid_w == grid_w,
            g.bin_size == bin_size,
            g.bins_positions(positions@),
    {
        let (cells, counts) = count_pass(positions, bin_size, grid_w);
        proof {
            assert forall|i: int| 0 <= i < cells@.len() implies 0 <= #[trigger] cells@[i]
                < counts@.len() by {
                lemma_cell_index_bound(positions@[i], bin_size as int, grid_w as int);
            }
        }
        let offsets = offsets_pass(&cells, &counts);
        let bins = scatter_pass(&cells, &offsets);
        Grid { grid_w, bin_size, cells, counts, offsets, bins }
    }
}

/// Every particle stands in `bins`, among the particles of its cell.
pub proof fn lemma_bins_hold_all(grid: Grid, positions: Seq<Vec2>, i: int)
    requires
        grid.bins_positions(positions),
        0 <= i < positions.len(),
    ensures
        exists|slot: int|
            start_of(grid.cells@, grid.cells@[i] as int) <= slot < start_of(
                grid.cells@,
                grid.cells@[i] + 1,
            ) && 0 <= slot < grid.bins@.len() && #[trigger] grid.bins@[slot] == i,
{
    let cells = grid.cells@;
    let c = cells[i] as int;
    lemma_cell_index_bound(positions[i], grid.bin_size as int, grid.grid_w as int);
    lemma_members(cells, c);
    let t = choose|t: int| 0 <= t < members(cells, c).len() && members(cells, c)[t] == i;
    let slot = start_of(cells, c) + t;
    assert(start_of(cells, c + 1) == start_of(cells, c) + members(cells, c).len());
    lemma_start_of(cells, c + 1, grid.area());
    assert forall|a: int| 0 <= a < cells.len() implies 0 <= #[trigger] cells[a] < grid.area() by {
        lemma_cell_index_bound(positions[a], grid.bin_size as int, grid.grid_w as int);
    }
    lemma_start_of_total(cells, grid.area());
    lemma_start_of(cells, 0, c);
    assert(grid.bins@[slot] as int == members(cells, c)[t]);
}

} // verus!
