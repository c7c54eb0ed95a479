//! The grid: a fixed-size two-dimensional array of binary cells,
//! addressed in row-major order, together with the Game-of-Life
//! transition rule.

use vstd::prelude::*;

verus! {

/// The state of one cell: alive or dead. Nothing else.
#[derive(Clone, Copy, PartialEq, Eq, Structural, Debug)]
pub enum Cell {
    Alive,
    Dead,
}

/// A fixed-size grid of cells. `width` and `height` are positive and
/// fixed at construction; the cells form a dense row-major sequence of
/// length `width * height`, cell `(x, y)` living at index
/// `y * width + x`.
pub struct Grid {
    width: usize,
    height: usize,
    cells: Vec<Cell>,
}

/// `0 <= y * w + x < h * w` whenever `(x, y)` is inside a `w` by `h` grid.
pub(crate) proof fn lemma_row_major_index_in_range(x: int, y: int, w: int, h: int)
    requires
        0 <= x < w,
        0 <= y < h,
    ensures
        0 <= y * w + x < h * w,
{
    assert(0 <= y * w + x < h * w) by (nonlinear_arith)
        requires
            0 <= x < w,
            0 <= y < h,
    ;
}

/// Distinct in-bounds coordinates have distinct row-major indices.
pub(crate) proof fn lemma_row_major_index_injective(x1: int, y1: int, x2: int, y2: int, w: int)
    requires
        0 <= x1 < w,
        0 <= x2 < w,
        0 <= y1,
        0 <= y2,
        !(x1 == x2 && y1 == y2),
    ensures
        y1 * w + x1 != y2 * w + x2,
{
    assert(y1 * w + x1 != y2 * w + x2) by (nonlinear_arith)
        requires
            0 <= x1 < w,
            0 <= x2 < w,
            0 <= y1,
            0 <= y2,
            !(x1 == x2 && y1 == y2),
    ;
}

/// Determinism of the transition: the next state of every cell is a
/// function of the prior snapshot alone, so two grids of equal
/// dimensions holding equal cells agree on the next state of every
/// cell.
pub proof fn lemma_step_deterministic(a: Grid, b: Grid)
    requires
        a.well_formed(),
        b.well_formed(),
        a.spec_width() == b.spec_width(),
        a.spec_height() == b.spec_height(),
        forall|x: int, y: int| a.in_bounds(x, y) ==> a.cell_at(x, y) == b.cell_at(x, y),
    ensures
        forall|x: int, y: int| a.in_bounds(x, y) ==> a.next_cell(x, y) == b.next_cell(x, y),
{
    assert forall|x: int, y: int| a.alive_at(x, y) == b.alive_at(x, y) by {}
    assert forall|x: int, y: int| a.in_bounds(x, y) implies a.next_cell(x, y) == b.next_cell(
        x,
        y,
    ) by {
        assert(a.neighbor_count(x, y) == b.neighbor_count(x, y));
    }
}

/// Stability of the "block": on a grid whose only live cells form a
/// 2-by-2 square placed away from the edges, every cell's next state
/// equals its current state, so one generation reproduces the grid
/// exactly.
#[verifier::rlimit(60)]
pub proof fn lemma_block_is_fixed_point(g: Grid, bx: int, by: int)
    requires
        g.well_formed(),
        1 <= bx && bx + 3 <= g.spec_width(),
        1 <= by && by + 3 <= g.spec_height(),
        forall|x: int, y: int|
            g.in_bounds(x, y) ==> (g.cell_at(x, y) == Cell::Alive <==> (bx <= x <= bx + 1 && by
                <= y <= by + 1)),
    ensures
        forall|x: int, y: int| g.in_bounds(x, y) ==> g.next_cell(x, y) == g.cell_at(x, y),
{
    assert forall|x: int, y: int|
        g.alive_at(x, y) <==> (bx <= x <= bx + 1 && by <= y <= by + 1) by {}
    assert forall|x: int, y: int| g.in_bounds(x, y) implies g.next_cell(x, y) == g.cell_at(
        x,
        y,
    ) by {
        assert(g.alive_at(x, y) <==> (bx <= x <= bx + 1 && by <= y <= by + 1));
    }
}

impl Grid {
    /// The grid's width, as a mathematical integer.
    pub closed spec fn spec_width(self) -> int {
        self.width as int
    }

    /// The grid's height, as a mathematical integer.
    pub closed spec fn spec_height(self) -> int {
        self.height as int
    }

    /// Whether `(x, y)` names a cell of this grid. There is no
    /// wraparound: positions outside `[0, width) x [0, height)` are not
    /// cells and are never read.
    pub open spec fn in_bounds(self, x: int, y: int) -> bool {
        &&& 0 <= x < self.spec_width()
        &&& 0 <= y < self.spec_height()
    }

    /// The cell stored at `(x, y)`.
    pub closed spec fn cell_at(self, x: int, y: int) -> Cell
        recommends
            self.in_bounds(x, y),
    {
        self.cells@[y * self.spec_width() + x]
    }

    /// Structural invariant: positive dimensions and a dense backing
    /// sequence of exactly `width * height` cells. Constructors
    /// establish it and every method preserves it.
    pub closed spec fn well_formed(self) -> bool {
        &&& self.spec_width() >= 1
        &&& self.spec_height() >= 1
        &&& self.cells@.len() == self.spec_width() * self.spec_height()
    }

    /// Whether `(x, y)` is a cell of the grid and holds `Cell::Alive`.
    /// Out-of-range positions count as not alive, which is exactly the
    /// no-wraparound clipping rule.
    pub open spec fn alive_at(self, x: int, y: int) -> bool {
        self.in_bounds(x, y) && self.cell_at(x, y) == Cell::Alive
    }

    /// The number of live cells among the up-to-8 Moore neighbors of
    /// `(x, y)`: the cell itself is excluded, and positions beyond the
    /// grid edge contribute nothing.
    pub open spec fn neighbor_count(self, x: int, y: int) -> int {
        (if self.alive_at(x - 1, y - 1) { 1int } else { 0int })
            + (if self.alive_at(x, y - 1) { 1int } else { 0int })
            + (if self.alive_at(x + 1, y - 1) { 1int } else { 0int })
            + (if self.alive_at(x - 1, y) { 1int } else { 0int })
            + (if self.alive_at(x + 1, y) { 1int } else { 0int })
            + (if self.alive_at(x - 1, y + 1) { 1int } else { 0int })
            + (if self.alive_at(x, y + 1) { 1int } else { 0int })
            + (if self.alive_at(x + 1, y + 1) { 1int } else { 0int })
    }

    /// The Game-of-Life rule for one cell: a live cell with 2 or 3 live
    /// neighbors survives, a dead cell with exactly 3 live neighbors is
    /// born, and every other cell is dead in the next generation.
    pub open spec fn step_rule(current: Cell, live_neighbors: int) -> Cell {
        if current == Cell::Alive {
            if live_neighbors == 2 || live_neighbors == 3 {
                Cell::Alive
            } else {
                Cell::Dead
            }
        } else {
            if live_neighbors == 3 {
                Cell::Alive
            } else {
                Cell::Dead
            }
        }
    }

    /// The state cell `(x, y)` takes in the generation after this one.
    pub open spec fn next_cell(self, x: int, y: int) -> Cell {
        Self::step_rule(self.cell_at(x, y), self.neighbor_count(x, y))
    }

    /// A well-formed grid has positive dimensions.
    pub proof fn lemma_positive_dimensions(self)
        requires
            self.well_formed(),
        ensures
            self.spec_width() >= 1,
            self.spec_height() >= 1,
    {
    }

    /// Builds an all-dead grid of the given dimensions.
    pub fn new(width: usize, height: usize) -> (g: Grid)
        requires
            width >= 1,
            height >= 1,
            width * height <= usize::MAX,
        ensures
            g.well_formed(),
            g.spec_width() == width,
            g.spec_height() == height,
            forall|x: int, y: int| g.in_bounds(x, y) ==> g.cell_at(x, y) == Cell::Dead,
    {
        proof {
            lemma_row_major_index_in_range(width - 1, height - 1, width as int, height as int);
        }
        let total: usize = width * height;
        let mut cells: Vec<Cell> = Vec::new();
        let mut i: usize = 0;
        while i < total
            invariant
                i <= total,
                cells@.len() == i,
                forall|k: int| 0 <= k < i ==> cells@[k] == Cell::Dead,
            decreases total - i,
        {
            cells.push(Cell::Dead);
            i = i + 1;
        }
        let g = Grid { width, height, cells };
        proof {
            assert forall|x: int, y: int| g.in_bounds(x, y) implies g.cell_at(x, y)
                == Cell::Dead by {
                lemma_row_major_index_in_range(x, y, width as int, height as int);
            }
        }
        g
    }

    /// The grid's width.
    pub fn width(&self) -> (w: usize)
        ensures
            w == self.spec_width(),
    {
        self.width
    }

    /// The grid's height.
    pub fn height(&self) -> (h: usize)
        ensures
            h == self.spec_height(),
    {
        self.height
    }

    /// Reads the cell at `(x, y)`. Out-of-range coordinates are a
    /// caller error and are excluded by the precondition.
    pub fn get_cell(&self, x: usize, y: usize) -> (c: Cell)
        requires
            self.well_formed(),
            x < self.spec_width(),
            y < self.spec_height(),
        ensures
            c == self.cell_at(x as int, y as int),
    {
        proof {
            lemma_row_major_index_in_range(
                x as int,
                y as int,
                self.spec_width(),
                self.spec_height(),
            );
        }
        let len: usize = self.cells.len();
        assert(y * self.width + x < len);
        self.cells[y * self.width + x]
    }

    /// Writes `cell` at `(x, y)`, leaving every other cell and the
    /// dimensions unchanged. Out-of-range coordinates are a caller
    /// error and are excluded by the precondition.
    pub fn set_cell(&mut self, x: usize, y: usize, cell: Cell)
        requires
            old(self).well_formed(),
            x < old(self).spec_width(),
            y < old(self).spec_height(),
        ensures
            final(self).well_formed(),
            final(self).spec_width() == old(self).spec_width(),
            final(self).spec_height() == old(self).spec_height(),
            final(self).cell_at(x as int, y as int) == cell,
            forall|i: int, j: int|
                old(self).in_bounds(i, j) && !(i == x && j == y) ==> final(self).cell_at(i, j)
                    == old(self).cell_at(i, j),
    {
        proof {
            lemma_row_major_index_in_range(
                x as int,
                y as int,
                self.spec_width(),
                self.spec_height(),
            );
        }
        let len: usize = self.cells.len();
        assert(y * self.width + x < len);
        let idx: usize = y * self.width + x;
        self.cells[idx] = cell;
        proof {
            assert forall|i: int, j: int|
                old(self).in_bounds(i, j) && !(i == x && j == y) implies final(self).cell_at(i, j)
                == old(self).cell_at(i, j) by {
                lemma_row_major_index_in_range(i, j, self.spec_width(), self.spec_height());
                lemma_row_major_index_injective(i, j, x as int, y as int, self.spec_width());
            }
        }
    }

    /// Counts the live cells among the up-to-8 in-bounds Moore
    /// neighbors of `(x, y)`: the cell itself is excluded, and no
    /// position beyond the grid edge is ever examined (no wraparound).
    /// The result always lies in `[0, 8]`.
    pub fn count_neighbors(&self, x: usize, y: usize) -> (count: usize)
        requires
            self.well_formed(),
            x < self.spec_width(),
            y < self.spec_height(),
        ensures
            count == self.neighbor_count(x as int, y as int),
            count <= 8,
    {
        let mut count: usize = 0;
        if x > 0 && y > 0 && self.get_cell(x - 1, y - 1) == Cell::Alive {
            count = count + 1;
        }
        if y > 0 && self.get_cell(x, y - 1) == Cell::Alive {
            count = count + 1;
        }
        if x + 1 < self.width && y > 0 && self.get_cell(x + 1, y - 1) == Cell::Alive {
            count = count + 1;
        }
        if x > 0 && self.get_cell(x - 1, y) == Cell::Alive {
            count = count + 1;
        }
        if x + 1 < self.width && self.get_cell(x + 1, y) == Cell::Alive {
            count = count + 1;
        }
        if x > 0 && y + 1 < self.height && self.get_cell(x - 1, y + 1) == Cell::Alive {
            count = count + 1;
        }
        if y + 1 < self.height && self.get_cell(x, y + 1) == Cell::Alive {
            count = count + 1;
        }
        if x + 1 < self.width && y + 1 < self.height && self.get_cell(x + 1, y + 1) == Cell::Alive {
            count = count + 1;
        }
        count
    }

    /// Advances the whole grid by one generation. Every new cell state
    /// is computed from the prior snapshot alone — no cell's update
    /// observes another cell's already-updated state — and the grid is
    /// replaced atomically by the new snapshot.
    #[verifier::rlimit(60)]
    pub fn next_generation(&mut self)
        requires
            old(self).well_formed(),
        ensures
            final(self).well_formed(),
            final(self).spec_width() == old(self).spec_width(),
            final(self).spec_height() == old(self).spec_height(),
            forall|x: int, y: int|
                old(self).in_bounds(x, y) ==> final(self).cell_at(x, y) == old(self).next_cell(
                    x,
                    y,
                ),
    {
        let ghost prior = *self;
        let mut new_cells: Vec<Cell> = Vec::new();
        let mut y: usize = 0;
        while y < self.height
            invariant
                *self == prior,
                prior.well_formed(),
                y <= prior.spec_height(),
                new_cells@.len() == y * prior.spec_width(),
                forall|i: int, j: int|
                    0 <= j < y && 0 <= i < prior.spec_width() ==> new_cells@[j * prior.spec_width()
                        + i] == prior.next_cell(i, j),
            decreases prior.spec_height() - y,
        {
            let mut x: usize = 0;
            while x < self.width
                invariant
                    *self == prior,
                    prior.well_formed(),
                    y < prior.spec_height(),
                    x <= prior.spec_width(),
                    new_cells@.len() == y * prior.spec_width() + x,
                    forall|i: int, j: int|
                        0 <= j < y && 0 <= i < prior.spec_width() ==> new_cells@[j
                            * prior.spec_width() + i] == prior.next_cell(i, j),
                    forall|i: int|
                        0 <= i < x ==> new_cells@[y * prior.spec_width() + i] == prior.next_cell(
                            i,
                            y as int,
                        ),
                decreases prior.spec_width() - x,
            {
                proof {
                    lemma_row_major_index_in_range(
                        x as int,
                        y as int,
                        prior.spec_width(),
                        prior.spec_height(),
                    );
                }
                let current = self.get_cell(x, y);
                let live_neighbors = self.count_neighbors(x, y);
                let next = if current == Cell::Alive {
                    if live_neighbors == 2 || live_neighbors == 3 {
                        Cell::Alive
                    } else {
                        Cell::Dead
                    }
                } else {
                    if live_neighbors == 3 {
                        Cell::Alive
                    } else {
                        Cell::Dead
                    }
                };
                new_cells.push(next);
                proof {
                    assert forall|i: int, j: int|
                        0 <= j < y && 0 <= i < prior.spec_width() implies new_cells@[j
                        * prior.spec_width() + i] == prior.next_cell(i, j) by {
                        lemma_row_major_index_in_range(i, j, prior.spec_width(), y as int);
                    }
                }
                x = x + 1;
            }
            proof {
                assert((y as int + 1) * prior.spec_width() == y as int * prior.spec_width()
                    + prior.spec_width()) by (nonlinear_arith);
                assert forall|i: int, j: int|
                    0 <= j < y + 1 && 0 <= i < prior.spec_width() implies new_cells@[j
                    * prior.spec_width() + i] == prior.next_cell(i, j) by {
                    lemma_row_major_index_in_range(i, j, prior.spec_width(), (y + 1) as int);
                }
            }
            y = y + 1;
        }
        self.cells = new_cells;
        proof {
            assert(prior.spec_height() * prior.spec_width() == prior.spec_width()
                * prior.spec_height()) by (nonlinear_arith);
            assert forall|x: int, y: int| old(self).in_bounds(x, y) implies final(self).cell_at(
                x,
                y,
            ) == old(self).next_cell(x, y) by {
                lemma_row_major_index_in_range(x, y, prior.spec_width(), prior.spec_height());
            }
        }
    }
}

} // verus!
