//! Textual rendering of a grid: one line per row, one glyph per cell,
//! rows in increasing `y` order, columns in increasing `x` order, each
//! row terminated by a line break. The glyph choice is the caller's
//! policy, so both glyphs are parameters.

use vstd::prelude::*;

use crate::grid::lemma_row_major_index_in_range;
use crate::grid::Cell;
use crate::grid::Grid;

verus! {

impl Grid {
    /// The character expected at column `x` of rendered row `y`: the
    /// cell's glyph for `0 <= x < width`, and a newline at
    /// `x == width`.
    pub open spec fn render_char_at(self, x: int, y: int, alive_glyph: char, dead_glyph: char) -> char {
        if x == self.spec_width() {
            '\n'
        } else if self.alive_at(x, y) {
            alive_glyph
        } else {
            dead_glyph
        }
    }

    /// Renders the grid as a flat character sequence. Each of the
    /// `height` rows occupies `width + 1` characters: the glyph of each
    /// cell of the row in increasing `x` order, then a newline. A live
    /// cell renders as `alive_glyph`, a dead cell as `dead_glyph`.
    #[verifier::rlimit(30)]
    pub fn render(&self, alive_glyph: char, dead_glyph: char) -> (out: Vec<char>)
        requires
            self.well_formed(),
        ensures
            out@.len() == self.spec_height() * (self.spec_width() + 1),
            forall|x: int, y: int|
                0 <= x <= self.spec_width() && 0 <= y < self.spec_height() ==> out@[y
                    * (self.spec_width() + 1) + x] == self.render_char_at(
                    x,
                    y,
                    alive_glyph,
                    dead_glyph,
                ),
    {
        let ghost stride = self.spec_width() + 1;
        let width = self.width();
        let height = self.height();
        let mut out: Vec<char> = Vec::new();
        let mut y: usize = 0;
        while y < height
            invariant
                self.well_formed(),
                width == self.spec_width(),
                height == self.spec_height(),
                stride == self.spec_width() + 1,
                y <= height,
                out@.len() == y * stride,
                forall|i: int, j: int|
                    0 <= j < y && 0 <= i <= width ==> out@[j * stride + i] == self.render_char_at(
                        i,
                        j,
                        alive_glyph,
                        dead_glyph,
                    ),
            decreases height - y,
        {
            let mut x: usize = 0;
            while x < width
                invariant
                    self.well_formed(),
                    width == self.spec_width(),
                    height == self.spec_height(),
                    stride == self.spec_width() + 1,
                    y < height,
                    x <= width,
                    out@.len() == y * stride + x,
                    forall|i: int, j: int|
                        0 <= j < y && 0 <= i <= width ==> out@[j * stride + i]
                            == self.render_char_at(i, j, alive_glyph, dead_glyph),
                    forall|i: int|
                        0 <= i < x ==> out@[y * stride + i] == self.render_char_at(
                            i,
                            y as int,
                            alive_glyph,
                            dead_glyph,
                        ),
                decreases width - x,
            {
                let glyph = if self.get_cell(x, y) == Cell::Alive {
                    alive_glyph
                } else {
                    dead_glyph
                };
                out.push(glyph);
                proof {
                    assert forall|i: int, j: int| 0 <= j < y && 0 <= i <= width implies out@[j
                        * stride + i] == self.render_char_at(i, j, alive_glyph, dead_glyph) by {
                        lemma_row_major_index_in_range(i, j, stride, y as int);
                    }
                }
                x = x + 1;
            }
            out.push('\n');
            proof {
                assert((y as int + 1) * stride == y as int * stride + stride) by (nonlinear_arith);
                assert forall|i: int, j: int| 0 <= j < y + 1 && 0 <= i <= width implies out@[j
                    * stride + i] == self.render_char_at(i, j, alive_glyph, dead_glyph) by {
                    if j < y {
                        lemma_row_major_index_in_range(i, j, stride, y as int);
                    }
                }
            }
            y = y + 1;
        }
        out
    }
}

} // verus!
