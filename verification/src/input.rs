//! Turning the pointer's state into moves on the board, frame by frame.

use crate::board::Board;
use crate::cell::Cell;
use crate::model::BoardView;
use crate::tally::{lemma_tally_step, tally, Property};
use vstd::prelude::*;

verus! {

/// What the input layer reports once per frame: where the pointer is, in
/// pixels, and which buttons went down in this frame.
#[derive(Clone, Copy, Debug, PartialEq, Eq, Structural)]
pub struct Pointer {
    /// Horizontal pixel position.
    pub x: i32,
    /// Vertical pixel position.
    pub y: i32,
    /// Whether the left button was pressed in this frame.
    pub left_pressed: bool,
    /// Whether the right button was pressed in this frame.
    pub right_pressed: bool,
}

/// The quotient of `x` by a positive `d`, rounded towards zero.
pub open spec fn quotient(x: int, d: int) -> int {
    if x >= 0 {
        x / d
    } else {
        -((-x) / d)
    }
}

/// Divides a pixel coordinate by the size of a cell, rounding towards zero.
pub fn cell_coordinate(pixel: i32, cell_size: i32) -> (q: i32)
    requires
        cell_size > 0,
    ensures
        q == quotient(pixel as int, cell_size as int),
{
    pixel / cell_size
}

impl Pointer {
    /// The position of the cell under the pointer, for cells `size` pixels
    /// wide and high. It may lie off the grid.
    pub open spec fn cell(self, size: int) -> (int, int) {
        (quotient(self.x as int, size), quotient(self.y as int, size))
    }
}

impl Cell {
    /// The cell with its flag put on if it was off, and taken off if it was on.
    pub open spec fn flag_flipped(self) -> Cell {
        Cell { is_flagged: !self.is_flagged, ..self }
    }
}

impl BoardView {
    /// The board after a right click on `(col, row)`: the flag of a covered
    /// cell is flipped; nothing happens off the grid or on an uncovered cell.
    pub open spec fn flag_toggled(self, col: int, row: int) -> BoardView {
        if self.in_bounds(col, row) && !self.at(col, row).is_revealed {
            BoardView {
                cells: self.cells.update(self.index(col, row), self.at(col, row).flag_flipped()),
                ..self
            }
        } else {
            self
        }
    }

    /// The board after a left click on `(col, row)` once the mines are laid:
    /// nothing happens off the grid or on an uncovered cell, a mine ends the
    /// game in defeat, and any other cell is revealed.
    pub open spec fn opened_at(self, col: int, row: int) -> BoardView {
        if !self.in_bounds(col, row) || self.at(col, row).is_revealed {
            self
        } else if self.at(col, row).is_mine {
            self.lost()
        } else {
            self.revealed_from(col, row)
        }
    }

    /// Whether `after` can be this board once the pointer's state has been
    /// acted on, for cells `size` pixels wide and high.
    ///
    /// A pointer off the grid does nothing. A left press lays the mines
    /// first if that has not begun, keeping the clicked cell clear, and then
    /// opens the cell. A right press without a left press flips the flag.
    pub open spec fn input_applied(self, after: BoardView, pointer: Pointer, size: int) -> bool {
        let (col, row) = pointer.cell(size);
        if !self.in_bounds(col, row) {
            after == self
        } else if pointer.left_pressed {
            if self.has_clicked {
                after == self.opened_at(col, row)
            } else {
                exists|mid: BoardView| #[trigger]
                    self.mines_laid(mid, col, row) && after == mid.opened_at(col, row)
            }
        } else if pointer.right_pressed {
            after == self.flag_toggled(col, row)
        } else {
            after == self
        }
    }

    /// Whether `after` can be this board one frame later: a lost board stays
    /// as it is, a board that meets the test for victory is won, and on any
    /// other the pointer's state is acted on.
    pub open spec fn frame_applied(self, after: BoardView, pointer: Pointer, size: int) -> bool {
        if self.lose {
            after == self
        } else if self.win_condition() {
            after == self.won()
        } else {
            self.input_applied(after, pointer, size)
        }
    }

    /// Flipping a flag keeps the invariant.
    pub proof fn lemma_flag_toggled_wf(self, col: int, row: int)
        requires
            self.wf(),
        ensures
            self.flag_toggled(col, row).wf(),
    {
        if self.in_bounds(col, row) {
            self.lemma_at(col, row);
        }
        self.lemma_grid_kept(self.flag_toggled(col, row));
    }

    /// A board with a covered cell is not won.
    pub proof fn lemma_covered_not_won(self, col: int, row: int)
        requires
            self.wf(),
            self.in_bounds(col, row),
            !self.at(col, row).is_revealed,
        ensures
            !self.win,
    {
        self.lemma_at(col, row);
        if self.win {
            assert(self.cells[self.index(col, row)].is_revealed);
        }
    }
}

impl BoardView {
    /// A left click keeps the invariant.
    pub proof fn lemma_opened_at_wf(self, col: int, row: int)
        requires
            self.wf(),
        ensures
            self.opened_at(col, row).wf(),
    {
        if self.in_bounds(col, row) && !self.at(col, row).is_revealed {
            if self.at(col, row).is_mine {
                self.lemma_covered_not_won(col, row);
                self.lemma_lost_wf();
            } else {
                self.lemma_revealed_from_wf(col, row);
            }
        }
    }
}

impl Board {
    /// Flips the flag of the cell at `(col, row)` if that cell is covered.
    pub fn toggle_flag(&mut self, col: i32, row: i32)
        requires
            old(self)@.wf(),
        ensures
            final(self)@ == old(self)@.flag_toggled(col as int, row as int),
            final(self)@.wf(),
    {
        proof {
            self@.lemma_flag_toggled_wf(col as int, row as int);
        }
        match self.locate(col, row) {
            Some(i) => {
                let mut cell = self.cell_at(i);
                if !cell.is_revealed {
                    cell.is_flagged = !cell.is_flagged;
                    self.put(i, cell);
                }
            },
            None => {},
        }
    }

    /// Acts on a left click on the cell at `(col, row)`, the mines being
    /// laid: an uncovered cell is left alone, a mine ends the game, and any
    /// other cell is revealed.
    pub fn open_cell(&mut self, col: i32, row: i32)
        requires
            old(self)@.wf(),
        ensures
            final(self)@ == old(self)@.opened_at(col as int, row as int),
            final(self)@.wf(),
    {
        match self.locate(col, row) {
            Some(i) => {
                let cell = self.cell_at(i);
                if !cell.is_revealed {
                    if cell.is_mine {
                        proof {
                            self@.lemma_covered_not_won(col as int, row as int);
                        }
                        self.game_over();
                    } else {
                        self.reveal_cell(col, row);
                    }
                }
            },
            None => {},
        }
    }

    /// Acts on the pointer's state for one frame, for cells `cell_size`
    /// pixels wide and high.
    ///
    /// The pointer's pixel position is turned into a cell position by
    /// integer division; a position off the grid is ignored. A left press
    /// lays the mines if this is the first click and then opens the cell; a
    /// right press is looked at only without a left press, and flips the flag
    /// of a covered cell.
    pub fn check_input(&mut self, pointer: Pointer, cell_size: i32)
        requires
            old(self)@.wf(),
            cell_size > 0,
        ensures
            old(self)@.input_applied(final(self)@, pointer, cell_size as int),
            final(self)@.wf(),
    {
        let col = cell_coordinate(pointer.x, cell_size);
        let row = cell_coordinate(pointer.y, cell_size);
        if self.locate(col, row).is_none() {
            return ;
        }
        if pointer.left_pressed {
            if !self.has_clicked() {
                self.place_mines(col, row);
            }
            let ghost mid = self@;
            self.open_cell(col, row);
            proof {
                if !old(self)@.has_clicked {
                    assert(old(self)@.mines_laid(mid, col as int, row as int) && self@ == mid.opened_at(
                        col as int,
                        row as int,
                    ));
                }
            }
        } else if pointer.right_pressed {
            self.toggle_flag(col, row);
        }
    }

    /// The number of uncovered cells that hide no mine.
    pub fn count_safe_revealed(&self) -> (n: usize)
        ensures
            n == self@.safe_revealed(),
    {
        let total = self.len();
        let mut n: usize = 0;
        let mut i: usize = 0;
        while i < total
            invariant
                i <= total,
                total == self@.cells.len(),
                n == tally(self@.cells.take(i as int), Property::SafeRevealed),
                n <= i,
            decreases total - i,
        {
            proof {
                lemma_tally_step(self@.cells, Property::SafeRevealed, i as int);
            }
            let cell = self.cell_at(i);
            if cell.is_revealed && !cell.is_mine {
                n += 1;
            }
            i += 1;
        }
        proof {
            assert(self@.cells.take(total as int) =~= self@.cells);
        }
        n
    }

    /// Advances the game by one frame.
    ///
    /// A lost board is frozen. Otherwise, if as many mine-free cells are
    /// uncovered as the grid has cells beyond its mine count, the game is
    /// won; if not, the pointer's state is acted on.
    pub fn update(&mut self, pointer: Pointer, cell_size: i32)
        requires
            old(self)@.wf(),
            cell_size > 0,
        ensures
            old(self)@.frame_applied(final(self)@, pointer, cell_size as int),
            final(self)@.wf(),
    {
        if self.is_lost() {
            return ;
        }
        let revealed = self.count_safe_revealed();
        if revealed == self.len() - self.mine_count() {
            self.win();
        } else {
            self.check_input(pointer, cell_size);
        }
    }
}

} // verus!
