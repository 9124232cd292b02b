//! The mathematical model of a board: a grid of cells in row-major order
//! together with the three game-state flags.

use crate::cell::Cell;
use crate::tally::{tally, Property};
use vstd::prelude::*;

verus! {

/// The state of a board as the contracts see it.
pub struct BoardView {
    /// Number of rows.
    pub rows: nat,
    /// Number of columns.
    pub cols: nat,
    /// Number of mines the game is played with.
    pub mine_count: nat,
    /// The cells, row after row; the cell at `(col, row)` is at `row * cols + col`.
    pub cells: Seq<Cell>,
    /// Whether the laying of mines has begun.
    pub has_clicked: bool,
    /// Whether the game is lost.
    pub lose: bool,
    /// Whether the game is won.
    pub win: bool,
}

/// The column and row offsets of the `k`-th of the eight neighbours of a cell.
pub open spec fn dir(k: int) -> (int, int) {
    if k == 0 {
        (-1, -1)
    } else if k == 1 {
        (-1, 0)
    } else if k == 2 {
        (-1, 1)
    } else if k == 3 {
        (0, -1)
    } else if k == 4 {
        (0, 1)
    } else if k == 5 {
        (1, -1)
    } else if k == 6 {
        (1, 0)
    } else {
        (1, 1)
    }
}

/// Whether two positions are distinct and a king's move apart.
pub open spec fn adjacent(a: (int, int), b: (int, int)) -> bool {
    &&& a != b
    &&& -1 <= b.0 - a.0 <= 1
    &&& -1 <= b.1 - a.1 <= 1
}

impl BoardView {
    /// Whether `(col, row)` lies on the grid.
    pub open spec fn in_bounds(self, col: int, row: int) -> bool {
        0 <= col < self.cols && 0 <= row < self.rows
    }

    /// Where the cell at `(col, row)` is kept.
    pub open spec fn index(self, col: int, row: int) -> int {
        row * self.cols + col
    }

    /// The cell at `(col, row)`.
    pub open spec fn at(self, col: int, row: int) -> Cell {
        self.cells[self.index(col, row)]
    }

    /// Whether there is a mine at `(col, row)`; positions off the grid hold none.
    pub open spec fn mine_at(self, col: int, row: int) -> bool {
        self.in_bounds(col, row) && self.at(col, row).is_mine
    }

    /// The number of mines among the first `k` neighbours of `(col, row)`.
    pub open spec fn mines_among(self, col: int, row: int, k: nat) -> nat
        decreases k,
    {
        if k == 0 {
            0
        } else {
            let d = dir(k - 1);
            self.mines_among(col, row, (k - 1) as nat) + if self.mine_at(col + d.0, row + d.1) {
                1nat
            } else {
                0nat
            }
        }
    }

    /// The number of mines among the up to eight neighbours of `(col, row)`.
    pub open spec fn adjacent_mines(self, col: int, row: int) -> nat {
        self.mines_among(col, row, 8)
    }

    /// The number of mines on the grid.
    pub open spec fn mine_total(self) -> nat {
        tally(self.cells, Property::Mine)
    }

    /// The number of flags on the grid.
    pub open spec fn flag_total(self) -> nat {
        tally(self.cells, Property::Flagged)
    }

    /// The number of uncovered cells that hide no mine.
    pub open spec fn safe_revealed(self) -> nat {
        tally(self.cells, Property::SafeRevealed)
    }

    /// The test a frame makes for victory: as many uncovered mine-free cells
    /// as the grid has cells beyond the mine count.
    pub open spec fn win_condition(self) -> bool {
        self.safe_revealed() == self.cells.len() - self.mine_count
    }

    /// Whether every cell sits at the position its place in the grid gives it.
    pub open spec fn positions_fixed(self) -> bool {
        forall|i: int|
            0 <= i < self.cells.len() ==> {
                let c = #[trigger] self.cells[i];
                c.col < self.cols && c.row < self.rows && c.row * self.cols + c.col == i
            }
    }

    /// Whether every stored neighbour count is either still zero or belongs
    /// to an uncovered cell and is the number of mines around it.
    pub open spec fn counts_valid(self) -> bool {
        forall|i: int|
            0 <= i < self.cells.len() ==> {
                let c = #[trigger] self.cells[i];
                c.nearby_mines != 0 ==> c.is_revealed && c.nearby_mines == self.adjacent_mines(
                    c.col as int,
                    c.row as int,
                )
            }
    }

    /// Whether every cell is uncovered.
    pub open spec fn all_revealed(self) -> bool {
        forall|i: int| 0 <= i < self.cells.len() ==> (#[trigger] self.cells[i]).is_revealed
    }

    /// The invariant of a board: a dense grid of `rows * cols` cells at fixed
    /// positions, no more of them than the machine can index, fewer mines
    /// asked for than there are cells, no mine before the laying of mines has
    /// begun and never more than asked for, and at most one of the two
    /// terminal states, the won one with every cell uncovered.
    pub open spec fn wf(self) -> bool {
        &&& self.cells.len() == self.rows * self.cols
        &&& self.cells.len() <= usize::MAX
        &&& self.mine_count < self.cells.len()
        &&& self.positions_fixed()
        &&& self.mine_total() <= self.mine_count
        &&& !self.has_clicked ==> self.mine_total() == 0
        &&& !(self.win && self.lose)
        &&& self.win ==> self.all_revealed()
    }
}

/// A position on a grid with `cols` columns lies inside the grid's range of
/// indices, below the end of its row.
pub proof fn lemma_index_in_range(rows: nat, cols: nat, col: int, row: int)
    requires
        0 <= col < cols,
        0 <= row < rows,
    ensures
        0 <= row * cols + col < rows * cols,
        0 <= row * cols <= rows * cols,
{
    assert(row * cols + cols <= rows * cols) by (nonlinear_arith)
        requires
            0 <= row < rows,
            0 <= cols,
    ;
    assert(0 <= row * cols) by (nonlinear_arith)
        requires
            0 <= row,
            0 <= cols,
    ;
}

/// Two positions on a grid with `cols` columns that are kept at the same
/// index are the same position.
pub proof fn lemma_position_unique(cols: nat, c1: int, r1: int, c2: int, r2: int)
    requires
        0 <= c1 < cols,
        0 <= c2 < cols,
        r1 * cols + c1 == r2 * cols + c2,
    ensures
        c1 == c2,
        r1 == r2,
{
    assert(r1 == r2) by (nonlinear_arith)
        requires
            0 <= c1 < cols,
            0 <= c2 < cols,
            r1 * cols + c1 == r2 * cols + c2,
    ;
}

impl BoardView {
    /// On a board with fixed positions, the cell kept for `(col, row)` is the
    /// one whose own position is `(col, row)`.
    pub proof fn lemma_at(self, col: int, row: int)
        requires
            self.cells.len() == self.rows * self.cols,
            self.positions_fixed(),
            self.in_bounds(col, row),
        ensures
            0 <= self.index(col, row) < self.cells.len(),
            self.at(col, row).col == col,
            self.at(col, row).row == row,
    {
        lemma_index_in_range(self.rows, self.cols, col, row);
        let c = self.cells[self.index(col, row)];
        lemma_position_unique(self.cols, c.col as int, c.row as int, col, row);
    }

    /// A change that keeps every cell where it is, moves no mine, uncovers
    /// but never covers, and leaves every neighbour count alone or sets that
    /// of an uncovered cell to the number of mines around it, keeps the grid
    /// part of the invariant, and keeps the neighbour counts valid.
    pub proof fn lemma_grid_kept(self, after: BoardView)
        requires
            self.wf(),
            after.rows == self.rows,
            after.cols == self.cols,
            after.mine_count == self.mine_count,
            after.has_clicked == self.has_clicked,
            after.cells.len() == self.cells.len(),
            forall|i: int|
                0 <= i < self.cells.len() ==> {
                    let a = #[trigger] after.cells[i];
                    let b = self.cells[i];
                    &&& a.col == b.col
                    &&& a.row == b.row
                    &&& a.is_mine == b.is_mine
                    &&& a.nearby_mines == b.nearby_mines || (a.is_revealed && a.nearby_mines
                        == self.adjacent_mines(b.col as int, b.row as int))
                    &&& b.is_revealed ==> a.is_revealed
                },
        ensures
            after.cells.len() == after.rows * after.cols,
            after.cells.len() <= usize::MAX,
            after.mine_count < after.cells.len(),
            after.positions_fixed(),
            after.mine_total() == self.mine_total(),
            self.counts_valid() ==> after.counts_valid(),
            self.all_revealed() ==> after.all_revealed(),
            forall|c: int, r: int| after.mine_at(c, r) == self.mine_at(c, r),
            forall|c: int, r: int| after.adjacent_mines(c, r) == self.adjacent_mines(c, r),
    {
        assert forall|i: int| 0 <= i < self.cells.len() implies Property::Mine.holds(
            #[trigger] after.cells[i],
        ) == Property::Mine.holds(self.cells[i]) by {}
        crate::tally::lemma_tally_agree(after.cells, self.cells, Property::Mine);
        assert forall|c: int, r: int| after.mine_at(c, r) == self.mine_at(c, r) by {
            if self.in_bounds(c, r) {
                self.lemma_at(c, r);
                assert(after.cells[self.index(c, r)].is_mine == self.cells[self.index(c, r)].is_mine);
            }
        }
        assert forall|c: int, r: int| after.adjacent_mines(c, r) == self.adjacent_mines(c, r) by {
            after.lemma_mines_among_agree(self, c, r, 8);
        }
        if self.counts_valid() {
            assert forall|i: int| 0 <= i < after.cells.len() implies {
                let c = #[trigger] after.cells[i];
                c.nearby_mines != 0 ==> c.is_revealed && c.nearby_mines == after.adjacent_mines(
                    c.col as int,
                    c.row as int,
                )
            } by {
                let b = self.cells[i];
                assert(b.nearby_mines != 0 ==> b.is_revealed && b.nearby_mines == self.adjacent_mines(
                    b.col as int,
                    b.row as int,
                ));
            }
        }
        assert forall|i: int| 0 <= i < after.cells.len() implies {
            let c = #[trigger] after.cells[i];
            c.col < after.cols && c.row < after.rows && c.row * after.cols + c.col == i
        } by {
            let b = self.cells[i];
            assert(b.col < self.cols && b.row < self.rows && b.row * self.cols + b.col == i);
        }
        if self.all_revealed() {
            assert forall|i: int| 0 <= i < after.cells.len() implies (#[trigger] after.cells[i]).is_revealed by {
                assert(self.cells[i].is_revealed);
            }
        }
    }

    /// The count around a position is at most the number of neighbours counted.
    pub proof fn lemma_mines_among_bound(self, col: int, row: int, k: nat)
        ensures
            self.mines_among(col, row, k) <= k,
        decreases k,
    {
        if k > 0 {
            self.lemma_mines_among_bound(col, row, (k - 1) as nat);
        }
    }

    /// Boards that agree on where the mines are agree on every count of
    /// neighbouring mines.
    pub proof fn lemma_mines_among_agree(self, other: BoardView, col: int, row: int, k: nat)
        requires
            forall|c: int, r: int| self.mine_at(c, r) == other.mine_at(c, r),
        ensures
            self.mines_among(col, row, k) == other.mines_among(col, row, k),
        decreases k,
    {
        if k > 0 {
            self.lemma_mines_among_agree(other, col, row, (k - 1) as nat);
        }
    }

    /// On a board without mines every count of neighbouring mines is zero.
    pub proof fn lemma_no_mines_no_neighbours(self, col: int, row: int, k: nat)
        requires
            self.cells.len() == self.rows * self.cols,
            self.mine_total() == 0,
        ensures
            self.mines_among(col, row, k) == 0,
        decreases k,
    {
        if k > 0 {
            self.lemma_no_mines_no_neighbours(col, row, (k - 1) as nat);
            let d = dir(k - 1);
            if self.in_bounds(col + d.0, row + d.1) {
                lemma_index_in_range(self.rows, self.cols, col + d.0, row + d.1);
                crate::tally::lemma_tally_zero(self.cells, Property::Mine);
                assert(!Property::Mine.holds(self.cells[self.index(col + d.0, row + d.1)]));
            }
        }
    }
}

} // verus!
