//! The atomic unit of grid state.

use vstd::prelude::*;

verus! {

/// One square of the grid.
///
/// The position is fixed when the board is built; the three flags and the
/// neighbour count change only through the board's operations.
#[derive(Clone, Copy, Debug, PartialEq, Eq, Structural)]
pub struct Cell {
    /// Column of the cell, counted from the left edge.
    pub col: usize,
    /// Row of the cell, counted from the top edge.
    pub row: usize,
    /// Number of mines among the adjacent cells, filled in when the cell is
    /// revealed by a reveal operation and zero until then.
    pub nearby_mines: u8,
    /// Whether the player has put a flag on the cell.
    pub is_flagged: bool,
    /// Whether the cell hides a mine.
    pub is_mine: bool,
    /// Whether the cell has been uncovered.
    pub is_revealed: bool,
}

/// What a renderer shows for a cell.
#[derive(Clone, Copy, Debug, PartialEq, Eq, Structural)]
pub enum Appearance {
    /// The flag icon.
    Flag,
    /// The mine icon.
    Mine,
    /// A filled square, in the uncovered colour when `revealed`, carrying the
    /// neighbour count as a label when that count is not zero.
    Tile { revealed: bool, label: Option<u8> },
}

impl Cell {
    /// A covered, unflagged, mine-free cell at the given position.
    pub fn new(col: usize, row: usize) -> (cell: Cell)
        ensures
            cell == Cell::blank(col, row),
    {
        Cell { col, row, nearby_mines: 0, is_flagged: false, is_mine: false, is_revealed: false }
    }

    /// The cell that `new` builds.
    pub open spec fn blank(col: usize, row: usize) -> Cell {
        Cell { col, row, nearby_mines: 0, is_flagged: false, is_mine: false, is_revealed: false }
    }

    /// The visual a cell calls for: a flag wins over everything, an uncovered
    /// mine comes next, and anything else is a plain tile.
    pub open spec fn shown(self) -> Appearance {
        if self.is_flagged {
            Appearance::Flag
        } else if self.is_revealed && self.is_mine {
            Appearance::Mine
        } else {
            Appearance::Tile {
                revealed: self.is_revealed,
                label: if self.nearby_mines != 0 {
                    Some(self.nearby_mines)
                } else {
                    None
                },
            }
        }
    }

    /// Chooses what to draw for this cell.
    pub fn appearance(&self) -> (look: Appearance)
        ensures
            look == self.shown(),
    {
        if self.is_flagged {
            Appearance::Flag
        } else if self.is_revealed && self.is_mine {
            Appearance::Mine
        } else {
            let label = if self.nearby_mines != 0 {
                Some(self.nearby_mines)
            } else {
                None
            };
            Appearance::Tile { revealed: self.is_revealed, label }
        }
    }
}

} // verus!
