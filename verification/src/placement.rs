//! Laying the mines, deferred until the first click so that the clicked
//! cell is always safe.

use crate::board::Board;
use crate::cell::Cell;
use crate::model::BoardView;
use crate::tally::{is_nth, lemma_tally_step, lemma_tally_update, lemma_tally_zero, tally, Property};
use rand::Rng;
use vstd::prelude::*;

verus! {

/// The handle of `rand`'s thread-local generator, carried through as an
/// opaque value.
#[verifier::external_type_specification]
#[verifier::external_body]
pub struct ExThreadRng(rand::rngs::ThreadRng);

/// `rand::thread_rng` hands out the handle of the thread-local generator.
/// Nothing is claimed of the handle.
pub assume_specification[ rand::thread_rng ]() -> (rng: rand::rngs::ThreadRng)
;

/// Draws an index with `Rng::gen_range(0..n)`. The range must not be empty,
/// as `gen_range` panics on an empty range. Claimed of the draw: it lies in
/// the range, whatever the generator yields.
#[verifier::external_body]
fn draw_below(rng: &mut rand::rngs::ThreadRng, n: usize) -> (drawn: usize)
    requires
        n > 0,
    ensures
        drawn < n,
{
    rng.gen_range(0..n)
}

/// The property of being able to take a mine when `(col, row)` is to be kept
/// clear.
pub open spec fn vacant(col: int, row: int) -> Property {
    Property::Vacant { col, row }
}

impl Cell {
    /// The cell with a mine put under it.
    pub open spec fn mined(self) -> Cell {
        Cell { is_mine: true, ..self }
    }

    /// Whether the cell sits at `(col, row)`.
    pub fn is_at(&self, col: i32, row: i32) -> (b: bool)
        ensures
            b == (self.col == col && self.row == row),
    {
        col >= 0 && row >= 0 && self.col == col as usize && self.row == row as usize
    }
}

impl BoardView {
    /// The number of cells that can still take a mine when `(col, row)` is
    /// to be kept clear.
    pub open spec fn vacant_total(self, col: int, row: int) -> nat {
        tally(self.cells, vacant(col, row))
    }

    /// The board after a mine has gone under the cell kept at `at`.
    pub open spec fn with_mine(self, at: int) -> BoardView {
        BoardView { has_clicked: true, cells: self.cells.update(at, self.cells[at].mined()), ..self }
    }

    /// Whether `after` is this board with its mines laid for a first click
    /// at `(col, row)`: nothing but mines has been added, there are exactly
    /// as many of them as the game asks for, none is under the clicked cell,
    /// and the board records that the laying has happened.
    pub open spec fn mines_laid(self, after: BoardView, col: int, row: int) -> bool {
        &&& after == (BoardView { has_clicked: true, cells: after.cells, ..self })
        &&& after.cells.len() == self.cells.len()
        &&& forall|i: int|
            0 <= i < self.cells.len() ==> #[trigger] after.cells[i] == (Cell {
                is_mine: after.cells[i].is_mine,
                ..self.cells[i]
            })
        &&& after.mine_total() == self.mine_count
        &&& self.in_bounds(col, row) ==> !after.at(col, row).is_mine
    }

    /// Whether the cell at `(col, row)` is on the grid and free of a mine:
    /// the one cell that is neither a mine nor able to take one.
    pub open spec fn kept_clear(self, col: int, row: int) -> bool {
        self.in_bounds(col, row) && !self.at(col, row).is_mine
    }

    /// Among the first `n` cells, those that can take a mine, those that hide
    /// one and the cell kept clear add up to `n`.
    proof fn lemma_vacant_prefix(self, col: int, row: int, n: int)
        requires
            self.wf(),
            0 <= n <= self.cells.len(),
        ensures
            tally(self.cells.take(n), vacant(col, row)) + tally(
                self.cells.take(n),
                Property::Mine,
            ) + (if self.kept_clear(col, row) && self.index(col, row) < n {
                1nat
            } else {
                0nat
            }) == n,
        decreases n,
    {
        if n > 0 {
            self.lemma_vacant_prefix(col, row, n - 1);
            lemma_tally_step(self.cells, vacant(col, row), n - 1);
            lemma_tally_step(self.cells, Property::Mine, n - 1);
            let c = self.cells[n - 1];
            assert(c.row * self.cols + c.col == n - 1);
            if self.in_bounds(col, row) {
                self.lemma_at(col, row);
            }
        }
    }

    /// The cells that can take a mine, the mines and the cell kept clear
    /// make up the whole grid.
    pub proof fn lemma_vacant_total(self, col: int, row: int)
        requires
            self.wf(),
        ensures
            self.vacant_total(col, row) + self.mine_total() + (if self.kept_clear(col, row) {
                1nat
            } else {
                0nat
            }) == self.cells.len(),
    {
        self.lemma_vacant_prefix(col, row, self.cells.len() as int);
        assert(self.cells.take(self.cells.len() as int) =~= self.cells);
        if self.in_bounds(col, row) {
            self.lemma_at(col, row);
        }
    }

    /// Laying the mines on a board where that has not begun keeps the
    /// invariant.
    pub proof fn lemma_mines_laid_wf(self, after: BoardView, col: int, row: int)
        requires
            self.wf(),
            !self.has_clicked,
            self.mines_laid(after, col, row),
        ensures
            after.wf(),
    {
        assert forall|i: int| 0 <= i < after.cells.len() implies {
            let c = #[trigger] after.cells[i];
            &&& c.col < after.cols && c.row < after.rows && c.row * after.cols + c.col == i
            &&& c.is_revealed == self.cells[i].is_revealed
        } by {
            let b = self.cells[i];
            assert(b.col < self.cols && b.row < self.rows && b.row * self.cols + b.col == i);
        }
        if self.win {
            assert forall|i: int| 0 <= i < after.cells.len() implies (#[trigger] after.cells[i]).is_revealed by {
                assert(self.cells[i].is_revealed);
            }
        }
    }

    /// Putting a mine under a cell that can take one, on a board short of
    /// its mine count, keeps the invariant, adds one mine and leaves one cell
    /// less to take a mine.
    pub proof fn lemma_with_mine(self, col: int, row: int, at: int)
        requires
            self.wf(),
            self.mine_total() < self.mine_count,
            0 <= at < self.cells.len(),
            vacant(col, row).holds(self.cells[at]),
        ensures
            self.with_mine(at).wf(),
            self.with_mine(at).mine_total() == self.mine_total() + 1,
            self.with_mine(at).vacant_total(col, row) + 1 == self.vacant_total(col, row),
            self.kept_clear(col, row) == self.with_mine(at).kept_clear(col, row),
    {
        let after = self.with_mine(at);
        lemma_tally_update(self.cells, Property::Mine, at, self.cells[at].mined());
        lemma_tally_update(self.cells, vacant(col, row), at, self.cells[at].mined());
        assert forall|i: int| 0 <= i < after.cells.len() implies {
            let c = #[trigger] after.cells[i];
            c.col < after.cols && c.row < after.rows && c.row * after.cols + c.col == i
        } by {
            let b = self.cells[i];
            assert(b.col < self.cols && b.row < self.rows && b.row * self.cols + b.col == i);
        }
        if self.win {
            assert forall|i: int| 0 <= i < after.cells.len() implies (#[trigger] after.cells[i]).is_revealed by {
                assert(self.cells[i].is_revealed);
            }
        }
        if self.in_bounds(col, row) {
            self.lemma_at(col, row);
        }
    }
}

impl Board {
    /// The index of the cell that can take a mine and has exactly `k` such
    /// cells before it, with `(col, row)` kept clear.
    fn nth_vacant(&self, k: usize, col: i32, row: i32) -> (at: usize)
        requires
            k < self@.vacant_total(col as int, row as int),
        ensures
            is_nth(self@.cells, vacant(col as int, row as int), k as int, at as int),
    {
        let ghost p = vacant(col as int, row as int);
        let total = self.len();
        let mut seen: usize = 0;
        let mut i: usize = 0;
        while i < total
            invariant
                i <= total,
                total == self@.cells.len(),
                p == vacant(col as int, row as int),
                seen == tally(self@.cells.take(i as int), p),
                seen <= k,
                k < tally(self@.cells, p),
            decreases total - i,
        {
            let cell = self.cell_at(i);
            proof {
                lemma_tally_step(self@.cells, p, i as int);
            }
            if !cell.is_mine && !cell.is_at(col, row) {
                if seen == k {
                    return i;
                }
                seen += 1;
            }
            i += 1;
        }
        proof {
            assert(self@.cells.take(total as int) =~= self@.cells);
        }
        vstd::pervasive::unreached()
    }

    /// Puts one mine on the board: under the cell that can still take one and
    /// has exactly `k` such cells before it in row-major order, where the
    /// cell at `(col, row)` is kept clear. Returns the index of that cell.
    ///
    /// This is the step that laying the mines repeats with a random `k`.
    pub fn place_mine(&mut self, k: usize, col: i32, row: i32) -> (at: usize)
        requires
            old(self)@.wf(),
            old(self)@.mine_total() < old(self)@.mine_count,
            k < old(self)@.vacant_total(col as int, row as int),
        ensures
            is_nth(
                old(self)@.cells,
                vacant(col as int, row as int),
                k as int,
                at as int,
            ),
            final(self)@ == old(self)@.with_mine(at as int),
            final(self)@.wf(),
            final(self)@.mine_total() == old(self)@.mine_total() + 1,
            final(self)@.vacant_total(col as int, row as int) + 1 == old(self)@.vacant_total(
                col as int,
                row as int,
            ),
    {
        let at = self.nth_vacant(k, col, row);
        let mut cell = self.cell_at(at);
        cell.is_mine = true;
        proof {
            self@.lemma_with_mine(col as int, row as int, at as int);
        }
        self.put(at, cell);
        self.mark_clicked();
        at
    }

    /// Lays the mines for a first click at `(col, row)`.
    ///
    /// Each mine goes under a cell drawn uniformly from those that hide no
    /// mine yet and are not the clicked one, until the board has its mine
    /// count. The board records that the laying has happened.
    pub fn place_mines(&mut self, col: i32, row: i32)
        requires
            old(self)@.wf(),
            !old(self)@.has_clicked,
        ensures
            old(self)@.mines_laid(final(self)@, col as int, row as int),
            final(self)@.wf(),
    {
        let ghost before = self@;
        proof {
            lemma_tally_zero(before.cells, Property::Mine);
            if before.in_bounds(col as int, row as int) {
                before.lemma_at(col as int, row as int);
            }
        }
        self.mark_clicked();
        let mut rng = rand::thread_rng();
        let total = self.len();
        let kept: usize = if self.locate(col, row).is_some() {
            1
        } else {
            0
        };
        let mut placed: usize = 0;
        while placed < self.mine_count()
            invariant
                before.wf(),
                self@.wf(),
                self@ == (BoardView { has_clicked: true, cells: self@.cells, ..before }),
                self@.cells.len() == before.cells.len(),
                total == before.cells.len(),
                forall|i: int|
                    0 <= i < before.cells.len() ==> #[trigger] self@.cells[i] == (Cell {
                        is_mine: self@.cells[i].is_mine,
                        ..before.cells[i]
                    }),
                placed == self@.mine_total(),
                kept == (if before.in_bounds(col as int, row as int) {
                    1nat
                } else {
                    0nat
                }),
                before.in_bounds(col as int, row as int) ==> !self@.at(col as int, row as int).is_mine,
            decreases self@.mine_count - placed,
        {
            let ghost now = self@;
            proof {
                now.lemma_vacant_total(col as int, row as int);
            }
            let k = draw_below(&mut rng, total - placed - kept);
            let at = self.place_mine(k, col, row);
            proof {
                assert forall|i: int| 0 <= i < before.cells.len() implies #[trigger] self@.cells[i] == (Cell {
                    is_mine: self@.cells[i].is_mine,
                    ..before.cells[i]
                }) by {
                    assert(now.cells[i] == (Cell { is_mine: now.cells[i].is_mine, ..before.cells[i] }));
                }
                if before.in_bounds(col as int, row as int) {
                    before.lemma_at(col as int, row as int);
                }
            }
            placed += 1;
        }
    }
}

} // verus!
