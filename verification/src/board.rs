//! The board: a `size x size` toroidal grid of cells, stored row-major in a
//! flat buffer that is allocated once and never resized. It refreshes every
//! cell's live-neighbor count from the current generation and advances all
//! cells one generation at a time.

use vstd::prelude::*;

use crate::cell::Cell;
use crate::cell::next_state;
use crate::point::Point;
use crate::point::wrap_index;

verus! {

/// The single construction error: a seed coordinate with either axis outside
/// `[0, size)`. The whole board is rejected, never clamped.
#[derive(Clone, Copy, Debug, PartialEq, Eq, Structural)]
pub struct SeedOutOfRange;

/// The offset of the `k`-th of the eight neighbors, row offset first, in a
/// fixed order: the row above left to right, the two row-mates, then the row
/// below left to right.
pub open spec fn offset_at(k: int) -> (int, int) {
    if k == 0 {
        (-1, -1)
    } else if k == 1 {
        (-1, 0)
    } else if k == 2 {
        (-1, 1)
    } else if k == 3 {
        (0, -1)
    } else if k == 4 {
        (0, 1)
    } else if k == 5 {
        (1, -1)
    } else if k == 6 {
        (1, 0)
    } else {
        (1, 1)
    }
}

/// A `size x size` grid of cells, row-major: the cell at row `i`, column `j`
/// sits at index `i * size + j`.
#[derive(Clone, Debug)]
pub struct Board {
    pub cells: Vec<Cell>,
    pub size: usize,
}

impl Board {
    /// The buffer holds exactly `size * size` cells, the grid has at least one
    /// cell per side, and every stored neighbor count is in `[0, 8]`.
    pub open spec fn wf(self) -> bool {
        &&& 1 <= self.size
        &&& self.cells@.len() == self.size * self.size
        &&& forall|k: int| 0 <= k < self.cells@.len() ==> (#[trigger] self.cells@[k]).wf()
    }

    /// Whether `(i, j)` is a position on this board.
    pub open spec fn in_range(self, i: int, j: int) -> bool {
        0 <= i < self.size && 0 <= j < self.size
    }

    /// The flat buffer index of row `i`, column `j`.
    pub open spec fn idx_of(self, i: int, j: int) -> int {
        i * self.size + j
    }

    /// The cell at row `i`, column `j`.
    pub open spec fn cell_spec(self, i: int, j: int) -> Cell {
        self.cells@[self.idx_of(i, j)]
    }

    /// Whether the cell at `(i, j)` is live in the current generation.
    pub open spec fn live_at(self, i: int, j: int) -> bool {
        self.cell_spec(i, j).live
    }

    /// The neighbor count stored at `(i, j)`.
    pub open spec fn count_at(self, i: int, j: int) -> int {
        self.cell_spec(i, j).neighbor_count as int
    }

    /// Whether the `k`-th neighbor of `(i, j)`, under toroidal wraparound, is
    /// live in the current generation.
    pub open spec fn neighbor_live(self, i: int, j: int, k: int) -> bool {
        self.live_at(
            wrap_index(i, offset_at(k).0, self.size as int),
            wrap_index(j, offset_at(k).1, self.size as int),
        )
    }

    /// How many of the first `k` neighbors of `(i, j)` are live.
    pub open spec fn live_neighbors_upto(self, i: int, j: int, k: int) -> int
        decreases k,
    {
        if k <= 0 {
            0
        } else {
            self.live_neighbors_upto(i, j, k - 1) + (if self.neighbor_live(i, j, k - 1) {
                1int
            } else {
                0int
            })
        }
    }

    /// How many of the eight toroidal neighbors of `(i, j)` are live in the
    /// current generation.
    pub open spec fn live_neighbor_count(self, i: int, j: int) -> int {
        self.live_neighbors_upto(i, j, 8)
    }
}

/// Row-major indexing stays inside a `size * size` buffer.
proof fn lemma_flat_index_bound(i: int, j: int, size: int)
    by (nonlinear_arith)
    requires
        0 <= i < size,
        0 <= j < size,
    ensures
        0 <= i * size + j < size * size,
{
}

/// Row-major indexing is injective on positions inside the grid.
proof fn lemma_flat_index_injective(i1: int, j1: int, i2: int, j2: int, size: int)
    by (nonlinear_arith)
    requires
        0 <= i1 < size,
        0 <= j1 < size,
        0 <= i2 < size,
        0 <= j2 < size,
        i1 * size + j1 == i2 * size + j2,
    ensures
        i1 == i2 && j1 == j2,
{
}

impl Board {
    /// The flat buffer index of row `i`, column `j`, as executable code.
    fn flat_index(&self, i: usize, j: usize) -> (r: usize)
        requires
            self.wf(),
            i < self.size,
            j < self.size,
        ensures
            r == self.idx_of(i as int, j as int),
            r < self.cells@.len(),
    {
        proof {
            vstd::std_specs::vec::axiom_spec_len(&self.cells);
            lemma_flat_index_bound(i as int, j as int, self.size as int);
        }
        i * self.size + j
    }

    /// The side length of the grid.
    pub fn size(&self) -> (s: usize)
        ensures
            s == self.size,
    {
        self.size
    }

    /// A copy of the cell at `(i, j)`.
    pub fn cell_at(&self, i: usize, j: usize) -> (c: Cell)
        requires
            self.wf(),
            i < self.size,
            j < self.size,
        ensures
            c == self.cell_spec(i as int, j as int),
            c.wf(),
    {
        let k = self.flat_index(i, j);
        self.cells[k]
    }

    /// Replaces the cell at `(i, j)`, leaving every other cell as it was.
    fn set_cell(&mut self, i: usize, j: usize, c: Cell)
        requires
            old(self).wf(),
            i < old(self).size,
            j < old(self).size,
            c.wf(),
        ensures
            final(self).wf(),
            final(self).size == old(self).size,
            final(self).cells@.len() == old(self).cells@.len(),
            final(self).cell_spec(i as int, j as int) == c,
            forall|p: int, q: int|
                old(self).in_range(p, q) && !(p == i as int && q == j as int)
                    ==> final(self).cell_spec(p, q) == old(self).cell_spec(p, q),
    {
        let k = self.flat_index(i, j);
        self.cells.set(k, c);
        proof {
            assert forall|p: int, q: int|
                old(self).in_range(p, q) && !(p == i as int && q == j as int)
                    implies self.cell_spec(p, q) == old(self).cell_spec(p, q) by {
                lemma_flat_index_bound(p, q, old(self).size as int);
                if old(self).idx_of(p, q) == old(self).idx_of(i as int, j as int) {
                    lemma_flat_index_injective(p, q, i as int, j as int, old(self).size as int);
                }
            }
        }
    }

    /// Turns the cell at `(i, j)` live; its stored count and every other cell
    /// are untouched.
    pub fn set_live(&mut self, i: usize, j: usize)
        requires
            old(self).wf(),
            i < old(self).size,
            j < old(self).size,
        ensures
            final(self).wf(),
            final(self).size == old(self).size,
            final(self).cells@.len() == old(self).cells@.len(),
            final(self).live_at(i as int, j as int),
            final(self).count_at(i as int, j as int) == old(self).count_at(i as int, j as int),
            forall|p: int, q: int|
                old(self).in_range(p, q) && !(p == i as int && q == j as int)
                    ==> final(self).cell_spec(p, q) == old(self).cell_spec(p, q),
    {
        let mut cell = self.cell_at(i, j);
        cell.on();
        self.set_cell(i, j, cell);
    }

    /// Builds a `size x size` board with every cell dead and every stored
    /// count zero, then turns live exactly the cells named in `seed`. A seed
    /// coordinate with either axis outside `[0, size)` rejects the whole
    /// board. No neighbor counts are computed here; the first refresh
    /// establishes them.
    pub fn new(size: usize, seed: &Vec<(usize, usize)>) -> (r: Result<Board, SeedOutOfRange>)
        requires
            1 <= size,
            size * size <= usize::MAX,
        ensures
            r is Ok <==> (forall|k: int|
                0 <= k < seed@.len() ==> (#[trigger] seed@[k]).0 < size && seed@[k].1 < size),
            r matches Ok(b) ==> {
                &&& b.wf()
                &&& b.size == size
                &&& forall|i: int, j: int| b.in_range(i, j) ==> b.count_at(i, j) == 0
                &&& forall|i: int, j: int|
                    b.in_range(i, j) ==> (b.live_at(i, j) <==> seeded(
                        seed@,
                        seed@.len() as int,
                        i,
                        j,
                    ))
            },
    {
        let mut t: usize = 0;
        while t < seed.len()
            invariant
                t <= seed@.len(),
                forall|k: int|
                    0 <= k < t ==> (#[trigger] seed@[k]).0 < size && seed@[k].1 < size,
            decreases seed@.len() - t,
        {
            let (x, y) = seed[t];
            if x >= size || y >= size {
                return Err(SeedOutOfRange);
            }
            t = t + 1;
        }

        let n = size * size;
        let mut cells: Vec<Cell> = Vec::new();
        let mut filled: usize = 0;
        while filled < n
            invariant
                filled <= n,
                cells@.len() == filled,
                forall|k: int|
                    0 <= k < filled ==> #[trigger] cells@[k] == (Cell {
                        live: false,
                        neighbor_count: 0,
                    }),
            decreases n - filled,
        {
            cells.push(Cell::new());
            filled = filled + 1;
        }
        let mut board = Board { cells, size };
        assert forall|i: int, j: int| board.in_range(i, j)
            implies board.cell_spec(i, j) == (Cell { live: false, neighbor_count: 0 }) by {
            lemma_flat_index_bound(i, j, size as int);
        }

        let mut t: usize = 0;
        while t < seed.len()
            invariant
                t <= seed@.len(),
                forall|k: int|
                    0 <= k < seed@.len() ==> (#[trigger] seed@[k]).0 < size && seed@[k].1 < size,
                board.wf(),
                board.size == size,
                forall|i: int, j: int| board.in_range(i, j) ==> board.count_at(i, j) == 0,
                forall|i: int, j: int|
                    board.in_range(i, j) ==> (board.live_at(i, j) <==> seeded(
                        seed@,
                        t as int,
                        i,
                        j,
                    )),
            decreases seed@.len() - t,
        {
            let ghost prev = board;
            let (x, y) = seed[t];
            board.set_live(x, y);
            proof {
                assert(x == seed@[t as int].0 && y == seed@[t as int].1);
                assert forall|i: int, j: int| board.in_range(i, j)
                    implies (board.live_at(i, j) <==> seeded(seed@, t as int + 1, i, j)) by {
                    assert(prev.in_range(i, j));
                    assert(prev.live_at(i, j) <==> seeded(seed@, t as int, i, j));
                    if i == x as int && j == y as int {
                        assert(seed@[t as int].0 == i && seed@[t as int].1 == j);
                        assert(seeded(seed@, t as int + 1, i, j));
                        assert(board.live_at(i, j));
                    } else {
                        assert(board.cell_spec(i, j) == prev.cell_spec(i, j));
                        if seeded(seed@, t as int + 1, i, j) {
                            let k = choose|k: int|
                                0 <= k < t as int + 1 && (#[trigger] seed@[k]).0 == i
                                    && seed@[k].1 == j;
                            assert(k < t as int);
                            assert(seeded(seed@, t as int, i, j));
                        }
                        if seeded(seed@, t as int, i, j) {
                            assert(seeded(seed@, t as int + 1, i, j));
                        }
                    }
                }
                assert forall|i: int, j: int| board.in_range(i, j)
                    implies board.count_at(i, j) == 0 by {
                    assert(prev.in_range(i, j));
                    assert(prev.count_at(i, j) == 0);
                    if !(i == x as int && j == y as int) {
                        assert(board.cell_spec(i, j) == prev.cell_spec(i, j));
                    }
                }
            }
            t = t + 1;
        }
        Ok(board)
    }

    /// Whether the neighbor of `(i, j)` at offset `(di, dj)`, under toroidal
    /// wraparound, is live in the current generation.
    fn neighbor_live_at(&self, i: usize, j: usize, di: i8, dj: i8) -> (r: bool)
        requires
            self.wf(),
            i < self.size,
            j < self.size,
            -1 <= di <= 1,
            -1 <= dj <= 1,
        ensures
            r == self.live_at(
                wrap_index(i as int, di as int, self.size as int),
                wrap_index(j as int, dj as int, self.size as int),
            ),
    {
        let base = Point { x: i, y: j };
        let n = base.point_with_offset(di, dj, self.size);
        self.cell_at(n.x, n.y).live
    }

    /// Counts the live cells among the eight toroidal neighbors of `(i, j)`,
    /// read from the board's present state.
    pub fn get_neighbor_count(&self, i: usize, j: usize) -> (r: u8)
        requires
            self.wf(),
            i < self.size,
            j < self.size,
        ensures
            r as int == self.live_neighbor_count(i as int, j as int),
            r <= 8,
    {
        let mut count: u8 = 0;
        assert(count as int == self.live_neighbors_upto(i as int, j as int, 0));
        if self.neighbor_live_at(i, j, -1, -1) {
            count = count + 1;
        }
        assert(count as int == self.live_neighbors_upto(i as int, j as int, 1) && count <= 1);
        if self.neighbor_live_at(i, j, -1, 0) {
            count = count + 1;
        }
        assert(count as int == self.live_neighbors_upto(i as int, j as int, 2) && count <= 2);
        if self.neighbor_live_at(i, j, -1, 1) {
            count = count + 1;
        }
        assert(count as int == self.live_neighbors_upto(i as int, j as int, 3) && count <= 3);
        if self.neighbor_live_at(i, j, 0, -1) {
            count = count + 1;
        }
        assert(count as int == self.live_neighbors_upto(i as int, j as int, 4) && count <= 4);
        if self.neighbor_live_at(i, j, 0, 1) {
            count = count + 1;
        }
        assert(count as int == self.live_neighbors_upto(i as int, j as int, 5) && count <= 5);
        if self.neighbor_live_at(i, j, 1, -1) {
            count = count + 1;
        }
        assert(count as int == self.live_neighbors_upto(i as int, j as int, 6) && count <= 6);
        if self.neighbor_live_at(i, j, 1, 0) {
            count = count + 1;
        }
        assert(count as int == self.live_neighbors_upto(i as int, j as int, 7) && count <= 7);
        if self.neighbor_live_at(i, j, 1, 1) {
            count = count + 1;
        }
        assert(count as int == self.live_neighbors_upto(i as int, j as int, 8) && count <= 8);
        count
    }

    /// Stores at `(i, j)` its live-neighbor count as read from the board's
    /// present state; liveness and every other cell are untouched.
    pub fn update_neighbor_count(&mut self, i: usize, j: usize)
        requires
            old(self).wf(),
            i < old(self).size,
            j < old(self).size,
        ensures
            final(self).wf(),
            final(self).size == old(self).size,
            final(self).cells@.len() == old(self).cells@.len(),
            forall|p: int, q: int|
                old(self).in_range(p, q) ==> final(self).live_at(p, q) == old(self).live_at(p, q),
            final(self).count_at(i as int, j as int) == old(self).live_neighbor_count(
                i as int,
                j as int,
            ),
            forall|p: int, q: int|
                old(self).in_range(p, q) && !(p == i as int && q == j as int)
                    ==> final(self).count_at(p, q) == old(self).count_at(p, q),
    {
        let c = self.get_neighbor_count(i, j);
        let mut cell = self.cell_at(i, j);
        cell.neighbor_count = c;
        self.set_cell(i, j, cell);
    }

    /// Refreshes every cell's stored neighbor count from the board's present
    /// state. Each refresh reads only `live` flags, never stored counts, so
    /// the pass is order-independent.
    pub fn update_neighbor_counts(&mut self)
        requires
            old(self).wf(),
        ensures
            final(self).wf(),
            final(self).size == old(self).size,
            refresh_rel(*old(self), *final(self)),
    {
        let size = self.size;
        for i in 0..size
            invariant
                self.wf(),
                self.size == old(self).size,
                size == self.size,
                self.cells@.len() == old(self).cells@.len(),
                forall|p: int, q: int|
                    old(self).in_range(p, q) ==> self.live_at(p, q) == old(self).live_at(p, q),
                forall|p: int, q: int|
                    old(self).in_range(p, q) && p < i
                        ==> self.count_at(p, q) == old(self).live_neighbor_count(p, q),
                forall|p: int, q: int|
                    old(self).in_range(p, q) && p >= i
                        ==> self.count_at(p, q) == old(self).count_at(p, q),
        {
            for j in 0..size
                invariant
                    self.wf(),
                    self.size == old(self).size,
                    size == self.size,
                    i < size,
                    self.cells@.len() == old(self).cells@.len(),
                    forall|p: int, q: int|
                        old(self).in_range(p, q) ==> self.live_at(p, q) == old(self).live_at(p, q),
                    forall|p: int, q: int|
                        old(self).in_range(p, q) && (p < i || (p == i && q < j))
                            ==> self.count_at(p, q) == old(self).live_neighbor_count(p, q),
                    forall|p: int, q: int|
                        old(self).in_range(p, q) && (p > i || (p == i && q >= j))
                            ==> self.count_at(p, q) == old(self).count_at(p, q),
            {
                proof {
                    lemma_count_depends_on_live(*self, *old(self), i as int, j as int, 8);
                }
                self.update_neighbor_count(i, j);
            }
        }
    }

    /// Advances every cell one generation from its own stored neighbor count.
    /// Each cell reads only its already-finalized count, so the pass is
    /// order-independent.
    pub fn update_life_states(&mut self)
        requires
            old(self).wf(),
        ensures
            final(self).wf(),
            final(self).size == old(self).size,
            advance_rel(*old(self), *final(self)),
    {
        let size = self.size;
        for i in 0..size
            invariant
                self.wf(),
                self.size == old(self).size,
                size == self.size,
                self.cells@.len() == old(self).cells@.len(),
                forall|p: int, q: int|
                    old(self).in_range(p, q) && p < i
                        ==> self.live_at(p, q) == next_state(
                            old(self).count_at(p, q),
                            old(self).live_at(p, q),
                        ) && self.count_at(p, q) == old(self).count_at(p, q),
                forall|p: int, q: int|
                    old(self).in_range(p, q) && p >= i
                        ==> self.cell_spec(p, q) == old(self).cell_spec(p, q),
        {
            for j in 0..size
                invariant
                    self.wf(),
                    self.size == old(self).size,
                    size == self.size,
                    i < size,
                    self.cells@.len() == old(self).cells@.len(),
                    forall|p: int, q: int|
                        old(self).in_range(p, q) && (p < i || (p == i && q < j))
                            ==> self.live_at(p, q) == next_state(
                                old(self).count_at(p, q),
                                old(self).live_at(p, q),
                            ) && self.count_at(p, q) == old(self).count_at(p, q),
                    forall|p: int, q: int|
                        old(self).in_range(p, q) && (p > i || (p == i && q >= j))
                            ==> self.cell_spec(p, q) == old(self).cell_spec(p, q),
            {
                let mut cell = self.cell_at(i, j);
                cell.update_life_state();
                self.set_cell(i, j, cell);
            }
        }
    }

    /// Advances the whole board one generation: first every cell's neighbor
    /// count is refreshed from the unmodified prior generation, then every
    /// cell's liveness is advanced from those counts. The order is the core
    /// correctness invariant: no cell's count is ever computed against an
    /// already-advanced neighbor.
    pub fn step(&mut self)
        requires
            old(self).wf(),
        ensures
            final(self).wf(),
            final(self).size == old(self).size,
            step_rel(*old(self), *final(self)),
    {
        self.update_neighbor_counts();
        let ghost mid = *self;
        self.update_life_states();
        proof {
            assert forall|i: int, j: int| old(self).in_range(i, j)
                implies self.live_at(i, j) == next_state(
                    old(self).live_neighbor_count(i, j),
                    old(self).live_at(i, j),
                ) && self.count_at(i, j) == old(self).live_neighbor_count(i, j) by {
                assert(mid.in_range(i, j));
                assert(mid.count_at(i, j) == old(self).live_neighbor_count(i, j));
                assert(mid.live_at(i, j) == old(self).live_at(i, j));
            }
        }
    }
}

/// A partial neighbor count over `k` of the eight neighbors lies in `[0, k]`.
proof fn lemma_live_neighbors_upto_bounds(b: Board, i: int, j: int, k: int)
    requires
        0 <= k,
    ensures
        0 <= b.live_neighbors_upto(i, j, k) <= k,
    decreases k,
{
    if k > 0 {
        lemma_live_neighbors_upto_bounds(b, i, j, k - 1);
    }
}

/// For every board and every position, the live-neighbor count lies in
/// `[0, 8]`.
pub proof fn lemma_neighbor_count_bounds(b: Board, i: int, j: int)
    ensures
        0 <= b.live_neighbor_count(i, j) <= 8,
{
    lemma_live_neighbors_upto_bounds(b, i, j, 8);
}

/// Whether `(i, j)` appears among the first `n` coordinates of `seed`.
pub open spec fn seeded(seed: Seq<(usize, usize)>, n: int, i: int, j: int) -> bool {
    exists|k: int| 0 <= k < n && (#[trigger] seed[k]).0 == i && seed[k].1 == j
}

/// How one full neighbor-count refresh changes a board: every cell keeps its
/// liveness, and every cell's stored count becomes its live-neighbor count as
/// read from `pre`, the generation the refresh started from.
pub open spec fn refresh_rel(pre: Board, post: Board) -> bool {
    &&& post.size == pre.size
    &&& post.cells@.len() == pre.cells@.len()
    &&& forall|i: int, j: int| pre.in_range(i, j) ==> post.live_at(i, j) == pre.live_at(i, j)
    &&& forall|i: int, j: int|
        pre.in_range(i, j) ==> post.count_at(i, j) == pre.live_neighbor_count(i, j)
}

/// How one full advance pass changes a board: every cell keeps its stored
/// count, and every cell's liveness becomes the B3/S23 rule applied to its own
/// stored count and prior liveness.
pub open spec fn advance_rel(pre: Board, post: Board) -> bool {
    &&& post.size == pre.size
    &&& post.cells@.len() == pre.cells@.len()
    &&& forall|i: int, j: int|
        pre.in_range(i, j) ==> post.live_at(i, j) == next_state(
            pre.count_at(i, j),
            pre.live_at(i, j),
        )
    &&& forall|i: int, j: int|
        pre.in_range(i, j) ==> post.count_at(i, j) == pre.count_at(i, j)
}

/// How one generation step changes a board: every cell's liveness becomes the
/// B3/S23 rule applied to its live-neighbor count and liveness in `pre`, the
/// unmodified prior generation; the stored counts are those of `pre`.
pub open spec fn step_rel(pre: Board, post: Board) -> bool {
    &&& post.size == pre.size
    &&& post.cells@.len() == pre.cells@.len()
    &&& forall|i: int, j: int|
        pre.in_range(i, j) ==> post.live_at(i, j) == next_state(
            pre.live_neighbor_count(i, j),
            pre.live_at(i, j),
        )
    &&& forall|i: int, j: int|
        pre.in_range(i, j) ==> post.count_at(i, j) == pre.live_neighbor_count(i, j)
}

/// Two boards of the same size whose cells agree on liveness everywhere have
/// the same live-neighbor counts: the count reads only `live` flags.
pub proof fn lemma_count_depends_on_live(a: Board, b: Board, i: int, j: int, k: int)
    requires
        a.size == b.size,
        1 <= a.size,
        forall|p: int, q: int| a.in_range(p, q) ==> a.live_at(p, q) == b.live_at(p, q),
        a.in_range(i, j),
        0 <= k <= 8,
    ensures
        a.live_neighbors_upto(i, j, k) == b.live_neighbors_upto(i, j, k),
    decreases k,
{
    if k > 0 {
        lemma_count_depends_on_live(a, b, i, j, k - 1);
        let (di, dj) = offset_at(k - 1);
        let wi = wrap_index(i, di, a.size as int);
        let wj = wrap_index(j, dj, a.size as int);
        assert(a.in_range(wi, wj));
        assert(a.live_at(wi, wj) == b.live_at(wi, wj));
    }
}

/// Refreshing all neighbor counts twice in a row, with no liveness change in
/// between, stores the same counts as refreshing once: the second pass reads
/// the same `live` flags as the first.
pub proof fn lemma_refresh_idempotent(b0: Board, b1: Board, b2: Board)
    requires
        b0.wf(),
        refresh_rel(b0, b1),
        refresh_rel(b1, b2),
    ensures
        forall|i: int, j: int| b0.in_range(i, j) ==> b2.count_at(i, j) == b1.count_at(i, j),
{
    assert forall|i: int, j: int| b0.in_range(i, j)
        implies b2.count_at(i, j) == b1.count_at(i, j) by {
        assert(b1.in_range(i, j));
        assert forall|p: int, q: int| b1.in_range(p, q)
            implies b1.live_at(p, q) == b0.live_at(p, q) by {
            assert(b0.in_range(p, q));
        }
        lemma_count_depends_on_live(b1, b0, i, j, 8);
    }
}

/// Whether every cell of the board is dead.
pub open spec fn all_dead(b: Board) -> bool {
    forall|i: int, j: int| b.in_range(i, j) ==> !b.live_at(i, j)
}

/// On an all-dead board, every cell's live-neighbor count is zero.
proof fn lemma_dead_board_counts_zero(b: Board, i: int, j: int, k: int)
    requires
        1 <= b.size,
        all_dead(b),
        b.in_range(i, j),
        0 <= k <= 8,
    ensures
        b.live_neighbors_upto(i, j, k) == 0,
    decreases k,
{
    if k > 0 {
        lemma_dead_board_counts_zero(b, i, j, k - 1);
        let (di, dj) = offset_at(k - 1);
        let wi = wrap_index(i, di, b.size as int);
        let wj = wrap_index(j, dj, b.size as int);
        assert(b.in_range(wi, wj));
        assert(!b.live_at(wi, wj));
    }
}

/// An all-dead board stays all-dead across one generation step: every cell has
/// zero live neighbors, and a dead cell with zero live neighbors stays dead.
pub proof fn lemma_empty_board_stable(pre: Board, post: Board)
    requires
        pre.wf(),
        all_dead(pre),
        step_rel(pre, post),
    ensures
        all_dead(post),
{
    assert forall|i: int, j: int| post.in_range(i, j) implies !post.live_at(i, j) by {
        assert(pre.in_range(i, j));
        lemma_dead_board_counts_zero(pre, i, j, 8);
    }
}

/// An all-dead board stays all-dead after any number of generation steps:
/// along any chain of boards each obtained from the one before by a step,
/// every board is all-dead if the first is.
pub proof fn lemma_empty_board_stable_forever(boards: Seq<Board>, t: int)
    requires
        boards.len() >= 1,
        boards[0].wf(),
        all_dead(boards[0]),
        forall|u: int|
            0 <= u < boards.len() - 1 ==> (#[trigger] boards[u]).wf() && step_rel(
                boards[u],
                boards[u + 1],
            ),
        0 <= t < boards.len(),
    ensures
        all_dead(boards[t]),
    decreases t,
{
    if t > 0 {
        lemma_empty_board_stable_forever(boards, t - 1);
        lemma_empty_board_stable(boards[t - 1], boards[t]);
    }
}

} // verus!
