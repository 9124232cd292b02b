//! The two terminal transitions of a game, and the status line.

use crate::board::Board;
use crate::cell::Cell;
use crate::model::BoardView;
use crate::tally::{lemma_tally_step, tally, Property};
use vstd::prelude::*;

verus! {

/// What the status line of a game reports.
#[derive(Clone, Copy, Debug, PartialEq, Eq, Structural)]
pub enum Status {
    /// The game is lost.
    Lost,
    /// The game is won.
    Won,
    /// The game goes on; `mines_left` is the mine count less the number of
    /// flags on the board, and is negative with more flags than mines.
    Playing { mines_left: i128 },
}

impl Cell {
    /// The cell as victory leaves it: uncovered, and flagged if it hides a mine.
    pub open spec fn won(self) -> Cell {
        Cell { is_revealed: true, is_flagged: self.is_flagged || self.is_mine, ..self }
    }

    /// The cell as defeat leaves it: a mine is uncovered, and a flag on a
    /// mine-free cell is taken off and the cell uncovered.
    pub open spec fn lost(self) -> Cell {
        Cell {
            is_revealed: self.is_revealed || self.is_mine || self.is_flagged,
            is_flagged: self.is_flagged && self.is_mine,
            ..self
        }
    }
}

impl BoardView {
    /// The board after victory.
    pub open spec fn won(self) -> BoardView {
        BoardView {
            win: true,
            cells: Seq::new(self.cells.len(), |i: int| self.cells[i].won()),
            ..self
        }
    }

    /// The board after defeat.
    pub open spec fn lost(self) -> BoardView {
        BoardView {
            lose: true,
            cells: Seq::new(self.cells.len(), |i: int| self.cells[i].lost()),
            ..self
        }
    }

    /// What the status line reports: defeat first, then victory, then the
    /// number of mines not yet flagged.
    pub open spec fn status(self) -> Status {
        if self.lose {
            Status::Lost
        } else if self.win {
            Status::Won
        } else {
            Status::Playing { mines_left: (self.mine_count - self.flag_total()) as i128 }
        }
    }

    /// Victory on a board that is not lost keeps the invariant.
    pub proof fn lemma_won_wf(self)
        requires
            self.wf(),
            !self.lose,
        ensures
            self.won().wf(),
    {
        self.lemma_grid_kept(self.won());
    }

    /// Defeat on a board that is not won keeps the invariant.
    pub proof fn lemma_lost_wf(self)
        requires
            self.wf(),
            !self.win,
        ensures
            self.lost().wf(),
    {
        self.lemma_grid_kept(self.lost());
    }
}

impl Board {
    /// Declares the game won: sets the won state, uncovers every cell and
    /// puts a flag on every mine.
    pub fn win(&mut self)
        requires
            old(self)@.wf(),
            !old(self)@.lose,
        ensures
            final(self)@ == old(self)@.won(),
            final(self)@.wf(),
    {
        let ghost before = self@;
        self.mark_won();
        let n = self.len();
        let mut i: usize = 0;
        while i < n
            invariant
                i <= n,
                n == before.cells.len(),
                self@.cells.len() == n,
                self@ == (BoardView { cells: self@.cells, win: true, ..before }),
                forall|j: int| 0 <= j < i ==> self@.cells[j] == before.cells[j].won(),
                forall|j: int| i <= j < n ==> self@.cells[j] == before.cells[j],
            decreases n - i,
        {
            let mut cell = self.cell_at(i);
            if cell.is_mine {
                cell.is_flagged = true;
            }
            cell.is_revealed = true;
            self.put(i, cell);
            i += 1;
        }
        proof {
            assert(self@.cells =~= before.won().cells);
            before.lemma_won_wf();
        }
    }

    /// Declares the game lost: sets the lost state, uncovers every mine, and
    /// takes the flag off every flagged cell that hides no mine, uncovering it.
    pub fn game_over(&mut self)
        requires
            old(self)@.wf(),
            !old(self)@.win,
        ensures
            final(self)@ == old(self)@.lost(),
            final(self)@.wf(),
    {
        let ghost before = self@;
        self.mark_lost();
        let n = self.len();
        let mut i: usize = 0;
        while i < n
            invariant
                i <= n,
                n == before.cells.len(),
                self@.cells.len() == n,
                self@ == (BoardView { cells: self@.cells, lose: true, ..before }),
                forall|j: int| 0 <= j < i ==> self@.cells[j] == before.cells[j].lost(),
                forall|j: int| i <= j < n ==> self@.cells[j] == before.cells[j],
            decreases n - i,
        {
            let mut cell = self.cell_at(i);
            if cell.is_mine {
                cell.is_revealed = true;
            }
            if cell.is_flagged && !cell.is_mine {
                cell.is_revealed = true;
                cell.is_flagged = false;
            }
            self.put(i, cell);
            i += 1;
        }
        proof {
            assert(self@.cells =~= before.lost().cells);
            before.lemma_lost_wf();
        }
    }

    /// The number of flags on the board.
    pub fn flags_placed(&self) -> (n: usize)
        ensures
            n == self@.flag_total(),
    {
        let total = self.len();
        let mut n: usize = 0;
        let mut i: usize = 0;
        while i < total
            invariant
                i <= total,
                total == self@.cells.len(),
                n == tally(self@.cells.take(i as int), Property::Flagged),
                n <= i,
            decreases total - i,
        {
            proof {
                lemma_tally_step(self@.cells, Property::Flagged, i as int);
            }
            if self.cell_at(i).is_flagged {
                n += 1;
            }
            i += 1;
        }
        proof {
            assert(self@.cells.take(total as int) =~= self@.cells);
        }
        n
    }

    /// What the status line reports.
    pub fn status(&self) -> (status: Status)
        ensures
            status == self@.status(),
    {
        if self.is_lost() {
            Status::Lost
        } else if self.is_won() {
            Status::Won
        } else {
            let flags = self.flags_placed();
            Status::Playing { mines_left: self.mine_count() as i128 - flags as i128 }
        }
    }
}

} // verus!
