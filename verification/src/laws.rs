//! What holds of the board's operations taken together.

use crate::cell::Cell;
use crate::input::Pointer;
use crate::model::{adjacent, BoardView};
use crate::tally::{
    is_nth, lemma_tally_mines_and_safe, lemma_tally_prefix, lemma_tally_step, lemma_tally_within,
    lemma_tally_zero, Property,
};
use vstd::prelude::*;

verus! {

impl BoardView {
    /// Whether no uncovered cell that hides no mine carries a flag.
    pub open spec fn flags_tidy(self) -> bool {
        forall|i: int|
            0 <= i < self.cells.len() ==> {
                let c = #[trigger] self.cells[i];
                c.is_revealed && c.is_flagged ==> c.is_mine
            }
    }

    /// Whether every cell is covered.
    pub open spec fn all_covered(self) -> bool {
        forall|i: int| 0 <= i < self.cells.len() ==> !(#[trigger] self.cells[i]).is_revealed
    }

    /// Whether every mine carries a flag.
    pub open spec fn mines_flagged(self) -> bool {
        forall|i: int|
            0 <= i < self.cells.len() ==> {
                let c = #[trigger] self.cells[i];
                c.is_mine ==> c.is_flagged
            }
    }

    /// Whether every cell that hides no mine is uncovered.
    pub open spec fn safe_cells_revealed(self) -> bool {
        forall|i: int|
            0 <= i < self.cells.len() ==> {
                let c = #[trigger] self.cells[i];
                !c.is_mine ==> c.is_revealed
            }
    }

    /// The invariant of a game that is played frame by frame from a new
    /// board: beyond the board's own invariant, either nothing is uncovered
    /// and no mine laid yet, or exactly the mine count of mines is laid; no
    /// uncovered mine-free cell carries a flag; every neighbour count that is
    /// stored belongs to an uncovered cell and is right; and on a won board
    /// every mine is flagged.
    pub open spec fn in_play(self) -> bool {
        &&& self.wf()
        &&& self.flags_tidy()
        &&& self.counts_valid()
        &&& self.win ==> self.mines_flagged()
        &&& if self.has_clicked {
            self.mine_total() == self.mine_count
        } else {
            self.all_covered()
        }
    }
}

/// A position has no mine around it exactly when none of the positions
/// adjacent to it holds a mine.
pub proof fn law_no_mines_around(b: BoardView, col: int, row: int)
    ensures
        b.adjacent_mines(col, row) == 0 <==> forall|c: int, r: int|
            adjacent((col, row), (c, r)) ==> !#[trigger] b.mine_at(c, r),
{
    reveal_with_fuel(BoardView::mines_among, 9);
    if forall|c: int, r: int| adjacent((col, row), (c, r)) ==> !#[trigger] b.mine_at(c, r) {
        assert(!b.mine_at(col - 1, row - 1));
        assert(!b.mine_at(col - 1, row));
        assert(!b.mine_at(col - 1, row + 1));
        assert(!b.mine_at(col, row - 1));
        assert(!b.mine_at(col, row + 1));
        assert(!b.mine_at(col + 1, row - 1));
        assert(!b.mine_at(col + 1, row));
        assert(!b.mine_at(col + 1, row + 1));
    }
}

/// The count of mines around a position is never more than eight.
pub proof fn law_at_most_eight(b: BoardView, col: int, row: int)
    ensures
        b.adjacent_mines(col, row) <= 8,
{
    b.lemma_mines_among_bound(col, row, 8);
}

/// At most one cell is the `k`-th with a property, so that the cell a mine
/// goes under is fixed by the number drawn for it.
pub proof fn law_kth_cell_unique(cells: Seq<Cell>, p: Property, k: int, i: int, j: int)
    requires
        is_nth(cells, p, k, i),
        is_nth(cells, p, k, j),
    ensures
        i == j,
{
    if i < j {
        lemma_tally_step(cells, p, i);
        lemma_tally_prefix(cells, p, i + 1, j);
    } else if j < i {
        lemma_tally_step(cells, p, j);
        lemma_tally_prefix(cells, p, j + 1, i);
    }
}

/// Once the mines are laid for a first click, the board holds exactly its
/// mine count of mines, none of them under the clicked cell, and records the
/// click.
pub proof fn law_mines_laid(b: BoardView, after: BoardView, col: int, row: int)
    requires
        b.wf(),
        !b.has_clicked,
        b.mines_laid(after, col, row),
    ensures
        after.wf(),
        after.has_clicked,
        after.mine_total() == after.mine_count,
        b.in_bounds(col, row) ==> !after.at(col, row).is_mine,
{
    b.lemma_mines_laid_wf(after, col, row);
}

/// A reveal never uncovers a mine: a cell that is uncovered after a reveal
/// and was covered before hides no mine and carries no flag, and the mines
/// and flags stay where they were.
pub proof fn law_reveal_spares_mines(b: BoardView, col: int, row: int)
    requires
        b.wf(),
    ensures
        forall|i: int|
            0 <= i < b.cells.len() ==> {
                let after = #[trigger] b.revealed_from(col, row).cells[i];
                &&& after.is_mine == b.cells[i].is_mine
                &&& after.is_flagged == b.cells[i].is_flagged
                &&& after.is_revealed && !b.cells[i].is_revealed ==> !after.is_mine && !after.is_flagged
            },
{
    assert forall|i: int| 0 <= i < b.cells.len() implies {
        let after = #[trigger] b.revealed_from(col, row).cells[i];
        &&& after.is_mine == b.cells[i].is_mine
        &&& after.is_flagged == b.cells[i].is_flagged
        &&& after.is_revealed && !b.cells[i].is_revealed ==> !after.is_mine && !after.is_flagged
    } by {
        if b.revealed_from(col, row).cells[i].is_revealed && !b.cells[i].is_revealed {
            b.lemma_reveal_spares(col, row, i);
        }
    }
}

/// A reveal uncovers the cell it is aimed at whenever that cell can be
/// uncovered, and from every uncovered cell with no mine around it the
/// reveal reaches each neighbour that can be uncovered.
pub proof fn law_reveal_floods(b: BoardView, col: int, row: int, via: (int, int), to: (int, int))
    requires
        b.wf(),
    ensures
        b.fillable(col, row) ==> b.fills((col, row), (col, row)),
        b.fills((col, row), via) && b.spreads(via.0, via.1) && adjacent(via, to) && b.fillable(
            to.0,
            to.1,
        ) ==> b.fills((col, row), to),
{
    if b.fillable(col, row) {
        b.lemma_fill_start((col, row));
    }
    if b.fills((col, row), via) && b.spreads(via.0, via.1) && adjacent(via, to) && b.fillable(
        to.0,
        to.1,
    ) {
        b.lemma_fill_extend((col, row), via, to);
    }
}

/// A reveal stops at the ring of numbered cells: a cell other than the one
/// aimed at is reached only from an adjacent reached cell with no mine
/// around it.
pub proof fn law_reveal_stops(b: BoardView, col: int, row: int, to: (int, int)) -> (via: (int, int))
    requires
        b.wf(),
        b.fills((col, row), to),
        to != (col, row),
    ensures
        b.fills((col, row), via),
        b.spreads(via.0, via.1),
        adjacent(via, to),
{
    let path = choose|path: Seq<(int, int)>|
        #[trigger] b.fill_path(path) && path[0] == (col, row) && path.last() == to;
    let n = path.len() - 1;
    let shorter = path.take(n);
    assert(b.passes(path, n - 1));
    assert forall|k: int| 0 <= k < shorter.len() implies b.fillable(
        (#[trigger] shorter[k]).0,
        shorter[k].1,
    ) by {
        assert(shorter[k] == path[k]);
    }
    assert forall|k: int| 0 <= k < shorter.len() - 1 implies #[trigger] b.passes(shorter, k) by {
        assert(b.passes(path, k));
        assert(shorter[k] == path[k] && shorter[k + 1] == path[k + 1]);
    }
    assert(b.fill_path(shorter));
    assert(shorter[0] == path[0]);
    assert(shorter.last() == path[n - 1]);
    path[n - 1]
}

/// Revealing the same cell twice leaves the board as revealing it once.
pub proof fn law_reveal_idempotent(b: BoardView, col: int, row: int)
    requires
        b.wf(),
    ensures
        b.revealed_from(col, row).revealed_from(col, row) == b.revealed_from(col, row),
{
    let once = b.revealed_from(col, row);
    if b.fillable(col, row) {
        b.lemma_at(col, row);
        b.lemma_fill_start((col, row));
        assert(once.at(col, row) == once.cells[b.index(col, row)]);
        assert(once.at(col, row).is_revealed);
        once.lemma_reveal_blocked(col, row);
    } else {
        b.lemma_reveal_blocked(col, row);
    }
}

/// Flipping the flag of a cell twice leaves the board as it was.
pub proof fn law_flag_twice(b: BoardView, col: int, row: int)
    requires
        b.wf(),
    ensures
        b.flag_toggled(col, row).flag_toggled(col, row) == b,
{
    if b.in_bounds(col, row) {
        b.lemma_at(col, row);
        let once = b.flag_toggled(col, row);
        assert(once.flag_toggled(col, row).cells =~= b.cells);
    }
}

/// A left click on a flagged cell that hides no mine changes nothing.
pub proof fn law_flag_protects(b: BoardView, col: int, row: int)
    requires
        b.wf(),
        b.in_bounds(col, row),
        b.at(col, row).is_flagged,
        !b.at(col, row).is_mine,
    ensures
        b.opened_at(col, row) == b,
{
    b.lemma_reveal_blocked(col, row);
}

/// On a board whose mines are all laid, the test a frame makes for victory
/// holds exactly when every cell that hides no mine is uncovered.
pub proof fn law_win_condition(b: BoardView)
    requires
        b.wf(),
        b.mine_total() == b.mine_count,
    ensures
        b.win_condition() <==> b.safe_cells_revealed(),
{
    lemma_tally_mines_and_safe(b.cells);
    lemma_tally_within(b.cells, Property::SafeRevealed, Property::Safe);
    if b.win_condition() {
        assert forall|i: int| 0 <= i < b.cells.len() implies {
            let c = #[trigger] b.cells[i];
            !c.is_mine ==> c.is_revealed
        } by {
            assert(Property::Safe.holds(b.cells[i]) ==> Property::SafeRevealed.holds(b.cells[i]));
        }
    }
    if b.safe_cells_revealed() {
        assert forall|i: int| 0 <= i < b.cells.len() && Property::Safe.holds(
            #[trigger] b.cells[i],
        ) implies Property::SafeRevealed.holds(b.cells[i]) by {}
    }
}

/// A board that is not lost, has all its mines laid and every mine-free cell
/// uncovered is won after the next frame, whatever the pointer does, with
/// every cell uncovered and every mine flagged.
pub proof fn law_win_detection(b: BoardView, after: BoardView, pointer: Pointer, size: int)
    requires
        b.wf(),
        !b.lose,
        b.mine_total() == b.mine_count,
        b.safe_cells_revealed(),
        b.frame_applied(after, pointer, size),
    ensures
        after.win,
        !after.lose,
        after.cells.len() == b.cells.len(),
        after.all_revealed(),
        after.mines_flagged(),
        forall|i: int| 0 <= i < b.cells.len() ==> (#[trigger] after.cells[i]).is_mine == b.cells[i].is_mine,
{
    law_win_condition(b);
}

/// On a board in play, the test for victory can hold only once the mines
/// are laid, so that a board in play that is not lost and has every
/// mine-free cell uncovered is won after the next frame.
pub proof fn law_win_detection_in_play(b: BoardView, after: BoardView, pointer: Pointer, size: int)
    requires
        b.in_play(),
        !b.lose,
        b.safe_cells_revealed(),
        b.frame_applied(after, pointer, size),
    ensures
        after.win,
        after.all_revealed(),
        after.mines_flagged(),
{
    lemma_laid_once_uncovered(b);
    law_win_detection(b, after, pointer, size);
}

/// A left click on a covered mine loses the game: afterwards the board is
/// lost, every mine is uncovered, and every flag that sat on a mine-free
/// cell is gone and its cell uncovered.
pub proof fn law_loss_detection(b: BoardView, after: BoardView, pointer: Pointer, size: int)
    requires
        b.wf(),
        pointer.left_pressed,
        b.in_bounds(pointer.cell(size).0, pointer.cell(size).1),
        b.at(pointer.cell(size).0, pointer.cell(size).1).is_mine,
        !b.at(pointer.cell(size).0, pointer.cell(size).1).is_revealed,
        b.input_applied(after, pointer, size),
    ensures
        after.lose,
        !after.win,
        after.cells.len() == b.cells.len(),
        forall|i: int|
            0 <= i < b.cells.len() && (#[trigger] b.cells[i]).is_mine ==> after.cells[i].is_mine
                && after.cells[i].is_revealed,
        forall|i: int|
            0 <= i < b.cells.len() && (#[trigger] b.cells[i]).is_flagged && !b.cells[i].is_mine
                ==> after.cells[i].is_revealed && !after.cells[i].is_flagged,
{
    let (col, row) = pointer.cell(size);
    b.lemma_at(col, row);
    if !b.has_clicked {
        lemma_tally_zero(b.cells, Property::Mine);
        assert(!Property::Mine.holds(b.cells[b.index(col, row)]));
    }
    b.lemma_covered_not_won(col, row);
    assert(after == b.lost());
}

/// A new board is in play.
pub proof fn law_fresh_in_play(b: BoardView, rows: nat, cols: nat, mine_count: nat)
    requires
        b.wf(),
        b == BoardView::fresh(rows, cols, mine_count),
    ensures
        b.in_play(),
{
}

/// A left click on a board in play whose mines are laid keeps it in play.
pub proof fn law_open_keeps_play(b: BoardView, col: int, row: int)
    requires
        b.in_play(),
        b.has_clicked,
    ensures
        b.opened_at(col, row).in_play(),
{
    let after = b.opened_at(col, row);
    b.lemma_opened_at_wf(col, row);
    if b.in_bounds(col, row) && !b.at(col, row).is_revealed {
        b.lemma_covered_not_won(col, row);
        if b.at(col, row).is_mine {
            b.lemma_grid_kept(after);
        } else {
            b.lemma_revealed_from_wf(col, row);
        }
        assert forall|i: int| 0 <= i < after.cells.len() implies {
            let c = #[trigger] after.cells[i];
            c.is_revealed && c.is_flagged ==> c.is_mine
        } by {
            let c = b.cells[i];
            assert(c.is_revealed && c.is_flagged ==> c.is_mine);
            if !b.at(col, row).is_mine && after.cells[i].is_revealed && !c.is_revealed {
                b.lemma_reveal_spares(col, row, i);
            }
        }
    }
}

/// A frame keeps a board in play.
pub proof fn law_frame_keeps_play(b: BoardView, after: BoardView, pointer: Pointer, size: int)
    requires
        b.in_play(),
        b.frame_applied(after, pointer, size),
    ensures
        after.in_play(),
{
    let (col, row) = pointer.cell(size);
    if b.lose {
    } else if b.win_condition() {
        lemma_laid_once_uncovered(b);
        law_win_condition(b);
        b.lemma_won_wf();
        b.lemma_grid_kept(after);
        assert forall|i: int| 0 <= i < after.cells.len() implies {
            let c = #[trigger] after.cells[i];
            &&& c.is_revealed && c.is_flagged ==> c.is_mine
            &&& c.is_mine ==> c.is_flagged
        } by {
            let c = b.cells[i];
            assert(c.is_revealed && c.is_flagged ==> c.is_mine);
            assert(!c.is_mine ==> c.is_revealed);
        }
    } else if !b.in_bounds(col, row) {
    } else if pointer.left_pressed {
        if b.has_clicked {
            law_open_keeps_play(b, col, row);
        } else {
            let mid = choose|mid: BoardView| #[trigger]
                b.mines_laid(mid, col, row) && after == mid.opened_at(col, row);
            b.lemma_mines_laid_wf(mid, col, row);
            b.lemma_at(col, row);
            b.lemma_covered_not_won(col, row);
            assert forall|i: int| 0 <= i < mid.cells.len() implies {
                let c = #[trigger] mid.cells[i];
                !c.is_revealed && c.nearby_mines == 0
            } by {
                let c = b.cells[i];
                assert(!c.is_revealed);
                assert(c.nearby_mines != 0 ==> c.is_revealed);
            }
            law_open_keeps_play(mid, col, row);
        }
    } else if pointer.right_pressed {
        b.lemma_at(col, row);
        if !b.at(col, row).is_revealed {
            b.lemma_covered_not_won(col, row);
        }
        b.lemma_flag_toggled_wf(col, row);
        b.lemma_grid_kept(after);
        assert forall|i: int| 0 <= i < after.cells.len() implies {
            let c = #[trigger] after.cells[i];
            &&& c.is_revealed && c.is_flagged ==> c.is_mine
            &&& c.is_revealed == b.cells[i].is_revealed
        } by {
            let c = b.cells[i];
            assert(c.is_revealed && c.is_flagged ==> c.is_mine);
        }
    }
}

/// A board in play that is lost or won is frozen: a frame changes nothing,
/// whatever the pointer does.
pub proof fn law_terminal_states(b: BoardView, after: BoardView, pointer: Pointer, size: int)
    requires
        b.in_play(),
        b.lose || b.win,
        b.frame_applied(after, pointer, size),
    ensures
        after == b,
{
    if !b.lose {
        lemma_laid_once_uncovered(b);
        assert forall|i: int| 0 <= i < b.cells.len() implies {
            let c = #[trigger] b.cells[i];
            !c.is_mine ==> c.is_revealed
        } by {}
        law_win_condition(b);
        assert forall|i: int| 0 <= i < b.cells.len() implies b.won().cells[i] == b.cells[i] by {
            let c = b.cells[i];
            assert(c.is_revealed);
            assert(c.is_mine ==> c.is_flagged);
        }
        assert(b.won().cells =~= b.cells);
    }
}

/// On a board in play with a mine-free cell uncovered, or with the test for
/// victory met, the mines are laid.
proof fn lemma_laid_once_uncovered(b: BoardView)
    requires
        b.in_play(),
        b.win_condition() || b.win || b.safe_cells_revealed(),
    ensures
        b.has_clicked,
        b.mine_total() == b.mine_count,
{
    if !b.has_clicked {
        assert forall|i: int| 0 <= i < b.cells.len() implies !Property::SafeRevealed.holds(
            #[trigger] b.cells[i],
        ) by {}
        lemma_tally_zero(b.cells, Property::SafeRevealed);
        lemma_tally_zero(b.cells, Property::Mine);
        assert(!b.cells[0].is_revealed);
        assert(!Property::Mine.holds(b.cells[0]));
    }
}

} // verus!
