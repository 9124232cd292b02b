//! The board: its storage, its construction and read access to its state.

use crate::cell::Cell;
use crate::model::{lemma_index_in_range, BoardView};
use crate::tally::{lemma_tally_zero, Property};
use vstd::arithmetic::div_mod::lemma_fundamental_div_mod_converse;
use vstd::prelude::*;

verus! {

/// A Minesweeper board: a dense grid of cells and the state of the game.
#[derive(Debug)]
pub struct Board {
    rows: usize,
    cols: usize,
    mines: usize,
    board: Vec<Cell>,
    has_clicked: bool,
    lose: bool,
    win: bool,
}

impl View for Board {
    type V = BoardView;

    closed spec fn view(&self) -> BoardView {
        BoardView {
            rows: self.rows as nat,
            cols: self.cols as nat,
            mine_count: self.mines as nat,
            cells: self.board@,
            has_clicked: self.has_clicked,
            lose: self.lose,
            win: self.win,
        }
    }
}

impl Clone for Board {
    /// A second board in the same state.
    fn clone(&self) -> (copy: Board)
        ensures
            copy@ == self@,
    {
        let cells = self.board.clone();
        proof {
            assert(cells@ =~= self.board@);
        }
        Board {
            rows: self.rows,
            cols: self.cols,
            mines: self.mines,
            board: cells,
            has_clicked: self.has_clicked,
            lose: self.lose,
            win: self.win,
        }
    }
}

impl BoardView {
    /// The board a game starts from: every cell covered, unflagged and free
    /// of mines, at the position its index gives it, and no flag of the game
    /// state set.
    pub open spec fn fresh(rows: nat, cols: nat, mine_count: nat) -> BoardView {
        BoardView {
            rows,
            cols,
            mine_count,
            cells: Seq::new(
                rows * cols,
                |i: int| Cell::blank((i % cols as int) as usize, (i / cols as int) as usize),
            ),
            has_clicked: false,
            lose: false,
            win: false,
        }
    }
}

impl Board {
    /// Builds the board for a game on `rows` by `cols` cells with
    /// `mine_count` mines. No mine is laid yet: that waits for the first click.
    pub fn new(rows: usize, cols: usize, mine_count: usize) -> (board: Board)
        requires
            rows * cols <= usize::MAX,
            mine_count < rows * cols,
        ensures
            board@ == BoardView::fresh(rows as nat, cols as nat, mine_count as nat),
            board@.wf(),
    {
        let mut cells: Vec<Cell> = Vec::new();
        let mut row: usize = 0;
        while row < rows
            invariant
                row <= rows,
                rows * cols <= usize::MAX,
                cells@.len() == row * cols,
                forall|i: int|
                    0 <= i < cells@.len() ==> {
                        let c = #[trigger] cells@[i];
                        &&& c.col < cols
                        &&& c.row < row
                        &&& c.row * cols + c.col == i
                        &&& c == Cell::blank((i % cols as int) as usize, (i / cols as int) as usize)
                    },
            decreases rows - row,
        {
            let mut col: usize = 0;
            while col < cols
                invariant
                    row < rows,
                    col <= cols,
                    rows * cols <= usize::MAX,
                    cells@.len() == row * cols + col,
                    forall|i: int|
                        0 <= i < cells@.len() ==> {
                            let c = #[trigger] cells@[i];
                            &&& c.col < cols
                            &&& c.row <= row
                            &&& c.row * cols + c.col == i
                            &&& c == Cell::blank(
                                (i % cols as int) as usize,
                                (i / cols as int) as usize,
                            )
                        },
                decreases cols - col,
            {
                proof {
                    lemma_index_in_range(rows as nat, cols as nat, col as int, row as int);
                    lemma_fundamental_div_mod_converse(
                        row * cols + col,
                        cols as int,
                        row as int,
                        col as int,
                    );
                }
                cells.push(Cell::new(col, row));
                col += 1;
            }
            proof {
                assert(row * cols + cols == (row + 1) * cols) by (nonlinear_arith);
            }
            row += 1;
        }
        let board = Board {
            rows,
            cols,
            mines: mine_count,
            board: cells,
            has_clicked: false,
            lose: false,
            win: false,
        };
        proof {
            let fresh = BoardView::fresh(rows as nat, cols as nat, mine_count as nat);
            assert(board@.cells =~= fresh.cells);
            lemma_tally_zero(board@.cells, Property::Mine);
        }
        board
    }

    /// The number of rows.
    pub fn rows(&self) -> (n: usize)
        ensures
            n == self@.rows,
    {
        self.rows
    }

    /// The number of columns.
    pub fn cols(&self) -> (n: usize)
        ensures
            n == self@.cols,
    {
        self.cols
    }

    /// The number of mines the game is played with.
    pub fn mine_count(&self) -> (n: usize)
        ensures
            n == self@.mine_count,
    {
        self.mines
    }

    /// Whether the laying of mines has begun.
    pub fn has_clicked(&self) -> (b: bool)
        ensures
            b == self@.has_clicked,
    {
        self.has_clicked
    }

    /// Whether the game is lost.
    pub fn is_lost(&self) -> (b: bool)
        ensures
            b == self@.lose,
    {
        self.lose
    }

    /// Whether the game is won.
    pub fn is_won(&self) -> (b: bool)
        ensures
            b == self@.win,
    {
        self.win
    }

    /// The cells in row-major order.
    pub fn cells(&self) -> (cells: &Vec<Cell>)
        ensures
            cells@ == self@.cells,
    {
        &self.board
    }

    /// The index of the cell at `(col, row)`, or `None` for a position off
    /// the grid.
    pub fn locate(&self, col: i32, row: i32) -> (found: Option<usize>)
        requires
            self@.wf(),
        ensures
            found == (if self@.in_bounds(col as int, row as int) {
                Some(self@.index(col as int, row as int) as usize)
            } else {
                None
            }),
            found matches Some(i) ==> i < self@.cells.len() && self@.cells[i as int].col == col
                && self@.cells[i as int].row == row,
    {
        if col < 0 || row < 0 {
            return None;
        }
        let c = col as usize;
        let r = row as usize;
        if c >= self.cols || r >= self.rows {
            return None;
        }
        proof {
            self@.lemma_at(col as int, row as int);
            lemma_index_in_range(self@.rows, self@.cols, col as int, row as int);
            assert(r * self.cols + c < self.board.len());
        }
        Some(r * self.cols + c)
    }

    /// The cell at `(col, row)`, or `None` for a position off the grid.
    pub fn cell(&self, col: i32, row: i32) -> (found: Option<Cell>)
        requires
            self@.wf(),
        ensures
            found == (if self@.in_bounds(col as int, row as int) {
                Some(self@.at(col as int, row as int))
            } else {
                None
            }),
    {
        match self.locate(col, row) {
            Some(i) => Some(self.board[i]),
            None => None,
        }
    }

    /// The cell kept at index `i`.
    pub(crate) fn cell_at(&self, i: usize) -> (cell: Cell)
        requires
            i < self@.cells.len(),
        ensures
            cell == self@.cells[i as int],
    {
        self.board[i]
    }

    /// The number of cells.
    pub(crate) fn len(&self) -> (n: usize)
        ensures
            n == self@.cells.len(),
    {
        self.board.len()
    }

    /// Replaces the cell kept at index `i`.
    pub(crate) fn put(&mut self, i: usize, cell: Cell)
        requires
            i < old(self)@.cells.len(),
        ensures
            final(self)@ == (BoardView { cells: old(self)@.cells.update(i as int, cell), ..old(self)@ }),
    {
        self.board[i] = cell;
    }

    /// Records that the laying of mines has begun.
    pub(crate) fn mark_clicked(&mut self)
        ensures
            final(self)@ == (BoardView { has_clicked: true, ..old(self)@ }),
    {
        self.has_clicked = true;
    }

    /// Enters the lost state.
    pub(crate) fn mark_lost(&mut self)
        ensures
            final(self)@ == (BoardView { lose: true, ..old(self)@ }),
    {
        self.lose = true;
    }

    /// Enters the won state.
    pub(crate) fn mark_won(&mut self)
        ensures
            final(self)@ == (BoardView { win: true, ..old(self)@ }),
    {
        self.win = true;
    }
}

} // verus!
