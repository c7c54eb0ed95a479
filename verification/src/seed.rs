//! Randomized seeding of a freshly built grid.
//!
//! Two strategies: sparse seeding turns a fixed number of uniformly
//! drawn positions alive, dense seeding redraws every cell
//! independently with a fixed rational probability of being alive.
//! Randomness comes from the process-wide generator, so nothing can be
//! promised about which cells come out alive; the contracts state what
//! holds of every possible outcome.

use vstd::prelude::*;

use crate::grid::Cell;
use crate::grid::Grid;

verus! {

/// Relies on rand::random_range on `0..bound`: the thread-local
/// generator returns a value of the range it is given. The range is
/// non-empty by the precondition, so the call does not panic.
#[verifier::external_body]
fn random_below(bound: usize) -> (r: usize)
    requires
        bound >= 1,
    ensures
        r < bound,
{
    rand::random_range(0..bound)
}

impl Grid {
    /// Sparse random seeding: draws `count` positions uniformly from
    /// the grid (independent draws, not necessarily distinct) and sets
    /// each one alive. Cells never die from seeding: every cell either
    /// keeps its prior state or becomes alive.
    pub fn seed_sparse_random(&mut self, count: usize)
        requires
            old(self).well_formed(),
        ensures
            final(self).well_formed(),
            final(self).spec_width() == old(self).spec_width(),
            final(self).spec_height() == old(self).spec_height(),
            forall|x: int, y: int| old(self).alive_at(x, y) ==> final(self).alive_at(x, y),
            forall|x: int, y: int|
                final(self).in_bounds(x, y) && final(self).cell_at(x, y) != old(self).cell_at(x, y)
                    ==> final(self).cell_at(x, y) == Cell::Alive,
            count == 0 ==> *final(self) == *old(self),
            count >= 1 ==> exists|x: int, y: int| final(self).alive_at(x, y),
    {
        let ghost initial = *old(self);
        let mut drawn: usize = 0;
        while drawn < count
            invariant
                self.well_formed(),
                self.spec_width() == initial.spec_width(),
                self.spec_height() == initial.spec_height(),
                forall|x: int, y: int| initial.alive_at(x, y) ==> self.alive_at(x, y),
                forall|x: int, y: int|
                    self.in_bounds(x, y) && self.cell_at(x, y) != initial.cell_at(x, y)
                        ==> self.cell_at(x, y) == Cell::Alive,
                drawn <= count,
                drawn == 0 ==> *self == initial,
                drawn >= 1 ==> exists|x: int, y: int| self.alive_at(x, y),
            decreases count - drawn,
        {
            proof {
                self.lemma_positive_dimensions();
            }
            let x = random_below(self.width());
            let y = random_below(self.height());
            self.set_cell(x, y, Cell::Alive);
            proof {
                assert(self.alive_at(x as int, y as int));
            }
            drawn = drawn + 1;
        }
    }

    /// Dense random seeding: redraws every cell independently, alive
    /// with probability `numer / denom` and dead otherwise. With
    /// probability zero every cell comes out dead; with probability one
    /// every cell comes out alive.
    pub fn seed_dense_random(&mut self, numer: usize, denom: usize)
        requires
            old(self).well_formed(),
            denom >= 1,
        ensures
            final(self).well_formed(),
            final(self).spec_width() == old(self).spec_width(),
            final(self).spec_height() == old(self).spec_height(),
            numer == 0 ==> forall|x: int, y: int|
                final(self).in_bounds(x, y) ==> final(self).cell_at(x, y) == Cell::Dead,
            numer >= denom ==> forall|x: int, y: int|
                final(self).in_bounds(x, y) ==> final(self).cell_at(x, y) == Cell::Alive,
    {
        let ghost initial = *old(self);
        let width = self.width();
        let height = self.height();
        let mut y: usize = 0;
        while y < height
            invariant
                self.well_formed(),
                self.spec_width() == initial.spec_width(),
                self.spec_height() == initial.spec_height(),
                width == initial.spec_width(),
                height == initial.spec_height(),
                denom >= 1,
                y <= height,
                forall|i: int, j: int|
                    self.in_bounds(i, j) && j < y ==> (numer == 0 ==> self.cell_at(i, j)
                        == Cell::Dead) && (numer >= denom ==> self.cell_at(i, j) == Cell::Alive),
            decreases height - y,
        {
            let mut x: usize = 0;
            while x < width
                invariant
                    self.well_formed(),
                    self.spec_width() == initial.spec_width(),
                    self.spec_height() == initial.spec_height(),
                    width == initial.spec_width(),
                    height == initial.spec_height(),
                    denom >= 1,
                    y < height,
                    x <= width,
                    forall|i: int, j: int|
                        self.in_bounds(i, j) && (j < y || (j == y && i < x)) ==> (numer == 0
                            ==> self.cell_at(i, j) == Cell::Dead) && (numer >= denom
                            ==> self.cell_at(i, j) == Cell::Alive),
                decreases width - x,
            {
                let draw = random_below(denom);
                let cell = if draw < numer {
                    Cell::Alive
                } else {
                    Cell::Dead
                };
                self.set_cell(x, y, cell);
                x = x + 1;
            }
            y = y + 1;
        }
    }
}

} // verus!
