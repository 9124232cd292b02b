//! Flood-fill reveal: uncovering a cell and, through cells with no mine
//! around them, the whole region they connect.

use crate::board::Board;
use crate::cell::Cell;
use crate::model::{adjacent, dir, lemma_index_in_range, BoardView};
use crate::tally::{lemma_tally_update, tally, Property};
use vstd::prelude::*;

verus! {

impl BoardView {
    /// Whether a reveal may uncover the cell at `(col, row)`: it lies on the
    /// grid and is covered, unflagged and free of a mine.
    pub open spec fn fillable(self, col: int, row: int) -> bool {
        &&& self.in_bounds(col, row)
        &&& !self.at(col, row).is_revealed
        &&& !self.at(col, row).is_flagged
        &&& !self.at(col, row).is_mine
    }

    /// Whether a reveal that reaches `(col, row)` goes on to its neighbours:
    /// the cell can be uncovered and has no mine around it.
    pub open spec fn spreads(self, col: int, row: int) -> bool {
        self.fillable(col, row) && self.adjacent_mines(col, row) == 0
    }

    /// Whether the fill passes from position `k` of `path` to the next one.
    pub open spec fn passes(self, path: Seq<(int, int)>, k: int) -> bool {
        self.spreads(path[k].0, path[k].1) && adjacent(path[k], path[k + 1])
    }

    /// Whether `path` is a way the fill can take: every position on it can be
    /// uncovered, and every position but the last has no mine around it and
    /// is adjacent to the next.
    pub open spec fn fill_path(self, path: Seq<(int, int)>) -> bool {
        &&& path.len() > 0
        &&& forall|k: int| 0 <= k < path.len() ==> self.fillable((#[trigger] path[k]).0, path[k].1)
        &&& forall|k: int| 0 <= k < path.len() - 1 ==> #[trigger] self.passes(path, k)
    }

    /// Whether a reveal at `from` uncovers the cell at `to`.
    pub open spec fn fills(self, from: (int, int), to: (int, int)) -> bool {
        exists|path: Seq<(int, int)>|
            #[trigger] self.fill_path(path) && path[0] == from && path.last() == to
    }

    /// The cell as a reveal leaves it: uncovered, with the number of mines
    /// around it stored.
    pub open spec fn uncovered(self, cell: Cell) -> Cell {
        Cell {
            is_revealed: true,
            nearby_mines: self.adjacent_mines(cell.col as int, cell.row as int) as u8,
            ..cell
        }
    }

    /// The board after a reveal at `(col, row)`: exactly the cells that the
    /// fill reaches from there are uncovered and given their count.
    pub open spec fn revealed_from(self, col: int, row: int) -> BoardView {
        BoardView {
            cells: Seq::new(
                self.cells.len(),
                |i: int|
                    {
                        let c = self.cells[i];
                        if self.fills((col, row), (c.col as int, c.row as int)) {
                            self.uncovered(c)
                        } else {
                            c
                        }
                    },
            ),
            ..self
        }
    }

    /// The position of the cell kept at `i`.
    pub open spec fn position(self, i: int) -> (int, int) {
        (self.cells[i].col as int, self.cells[i].row as int)
    }

    /// Whether `now` is this board part of the way through a reveal at
    /// `from`: nothing but cells has changed, and every cell is either as it
    /// was or reached by the fill and uncovered.
    spec fn partly_filled(self, now: BoardView, from: (int, int)) -> bool {
        &&& now == (BoardView { cells: now.cells, ..self })
        &&& now.cells.len() == self.cells.len()
        &&& forall|i: int|
            0 <= i < self.cells.len() ==> {
                let n = #[trigger] now.cells[i];
                let c = self.cells[i];
                n == c || (n == self.uncovered(c) && self.fills(from, self.position(i)))
            }
    }

    /// Whether the first `upto` neighbours of the cell kept at `i` are taken
    /// care of: each one on the grid is uncovered, cannot be uncovered, or
    /// waits in `pending`.
    spec fn settled(self, now: BoardView, pending: Seq<usize>, i: int, upto: int) -> bool {
        forall|k: int|
            0 <= k < upto ==> {
                let d = #[trigger] dir(k);
                let c = self.cells[i].col + d.0;
                let r = self.cells[i].row + d.1;
                self.in_bounds(c, r) ==> now.cells[self.index(c, r)].is_revealed || !self.fillable(
                    c,
                    r,
                ) || pending.contains(self.index(c, r) as usize)
            }
    }

    /// Whether the cell kept at `i` was uncovered by the reveal under way and
    /// has no mine around it, so that the fill goes on from it.
    spec fn opened(self, now: BoardView, i: int) -> bool {
        &&& 0 <= i < self.cells.len()
        &&& now.cells[i].is_revealed
        &&& !self.cells[i].is_revealed
        &&& self.adjacent_mines(self.cells[i].col as int, self.cells[i].row as int) == 0
    }

    /// Whether every opened cell but the one kept at `skip` has all its
    /// neighbours taken care of.
    spec fn all_settled(self, now: BoardView, pending: Seq<usize>, skip: int) -> bool {
        forall|i: int|
            self.opened(now, i) && i != skip ==> #[trigger] self.settled(now, pending, i, 8)
    }

    /// Whether every index in `pending` is on the grid and, if its cell can
    /// be uncovered, is reached by the fill from `from`.
    spec fn pending_sound(self, pending: Seq<usize>, from: (int, int)) -> bool {
        forall|t: int|
            0 <= t < pending.len() ==> {
                let j = #[trigger] pending[t];
                &&& j < self.cells.len()
                &&& self.fillable(self.position(j as int).0, self.position(j as int).1)
                    ==> self.fills(from, self.position(j as int))
            }
    }

    /// Whether whatever waited in `earlier` still waits in `later` or is
    /// done with: uncovered, or not to be uncovered.
    spec fn carried_over(self, now: BoardView, earlier: Seq<usize>, later: Seq<usize>) -> bool {
        forall|x: usize| #[trigger]
            earlier.contains(x) ==> later.contains(x) || (x < self.cells.len() && (now.cells[x as int].is_revealed
                || !self.fillable(self.position(x as int).0, self.position(x as int).1)))
    }

    /// What holds of a reveal at `from` under way at every moment: both
    /// boards keep the invariant, `now` is part of the way there, what waits
    /// is sound, and the cell aimed at is uncovered or waits, if it can be
    /// uncovered at all.
    spec fn fill_frame(self, now: BoardView, pending: Seq<usize>, from: (int, int)) -> bool {
        &&& self.wf()
        &&& now.wf()
        &&& self.in_bounds(from.0, from.1)
        &&& self.partly_filled(now, from)
        &&& self.pending_sound(pending, from)
        &&& self.fillable(from.0, from.1) ==> now.at(from.0, from.1).is_revealed || pending.contains(
            self.index(from.0, from.1) as usize,
        )
    }

    /// What holds of a reveal between two cells taken from `pending`: every
    /// opened cell has all its neighbours taken care of.
    spec fn fill_state(self, now: BoardView, pending: Seq<usize>, from: (int, int)) -> bool {
        &&& self.fill_frame(now, pending, from)
        &&& self.all_settled(now, pending, -1)
    }

    /// What holds of a reveal while the neighbours of the cell kept at `j`,
    /// just uncovered, are gone through: the first `upto` of them are taken
    /// care of, and so are all neighbours of every other opened cell.
    spec fn spreading(
        self,
        now: BoardView,
        pending: Seq<usize>,
        from: (int, int),
        j: int,
        upto: int,
    ) -> bool {
        &&& self.fill_frame(now, pending, from)
        &&& 0 <= j < self.cells.len()
        &&& self.fillable(self.position(j).0, self.position(j).1)
        &&& now.cells[j] == self.uncovered(self.cells[j])
        &&& self.all_settled(now, pending, j)
        &&& self.settled(now, pending, j, upto)
    }

    /// This board with the cell kept at `j` uncovered as a reveal on
    /// `before` leaves it.
    spec fn with_uncovered(self, before: BoardView, j: int) -> BoardView {
        BoardView { cells: self.cells.update(j, before.uncovered(self.cells[j])), ..self }
    }

    /// A cell that can be uncovered is reached by a reveal at its own position.
    pub proof fn lemma_fill_start(self, from: (int, int))
        requires
            self.fillable(from.0, from.1),
        ensures
            self.fills(from, from),
    {
        let path = seq![from];
        assert(path[0] == from);
        assert(self.fill_path(path));
    }

    /// The fill goes on from a reached cell with no mine around it to every
    /// adjacent cell that can be uncovered.
    pub proof fn lemma_fill_extend(self, from: (int, int), via: (int, int), to: (int, int))
        requires
            self.fills(from, via),
            self.spreads(via.0, via.1),
            adjacent(via, to),
            self.fillable(to.0, to.1),
        ensures
            self.fills(from, to),
    {
        let path = choose|path: Seq<(int, int)>|
            #[trigger] self.fill_path(path) && path[0] == from && path.last() == via;
        let longer = path.push(to);
        assert forall|k: int| 0 <= k < longer.len() implies self.fillable(
            (#[trigger] longer[k]).0,
            longer[k].1,
        ) by {
            if k < path.len() {
                assert(longer[k] == path[k]);
            }
        }
        assert forall|k: int| 0 <= k < longer.len() - 1 implies #[trigger] self.passes(longer, k) by {
            if k < path.len() - 1 {
                assert(self.passes(path, k));
                assert(longer[k] == path[k] && longer[k + 1] == path[k + 1]);
            } else {
                assert(longer[k] == via && longer[k + 1] == to);
            }
        }
        assert(self.fill_path(longer));
        assert(longer[0] == path[0]);
        assert(longer.last() == to);
    }

    /// Both ends of a fill are cells that can be uncovered.
    pub proof fn lemma_fill_ends(self, from: (int, int), to: (int, int))
        requires
            self.fills(from, to),
        ensures
            self.fillable(from.0, from.1),
            self.fillable(to.0, to.1),
    {
        let path = choose|path: Seq<(int, int)>|
            #[trigger] self.fill_path(path) && path[0] == from && path.last() == to;
        assert(self.fillable(path[0].0, path[0].1));
        assert(self.fillable(path[path.len() - 1].0, path[path.len() - 1].1));
    }

    /// Neighbours that were taken care of stay so when cells are only
    /// uncovered and whatever waited still waits or is done with.
    proof fn lemma_settled_kept(
        self,
        first: BoardView,
        second: BoardView,
        waited: Seq<usize>,
        waits: Seq<usize>,
        i: int,
        upto: int,
    )
        requires
            self.wf(),
            0 <= i < self.cells.len(),
            first.cells.len() == self.cells.len(),
            second.cells.len() == self.cells.len(),
            self.settled(first, waited, i, upto),
            forall|x: int|
                0 <= x < self.cells.len() && first.cells[x].is_revealed ==> (#[trigger] second.cells[x]).is_revealed,
            self.carried_over(second, waited, waits),
        ensures
            self.settled(second, waits, i, upto),
    {
        assert forall|k: int| 0 <= k < upto implies {
            let d = #[trigger] dir(k);
            let c = self.cells[i].col + d.0;
            let r = self.cells[i].row + d.1;
            self.in_bounds(c, r) ==> second.cells[self.index(c, r)].is_revealed || !self.fillable(c, r)
                || waits.contains(self.index(c, r) as usize)
        } by {
            let d = dir(k);
            let c = self.cells[i].col + d.0;
            let r = self.cells[i].row + d.1;
            if self.in_bounds(c, r) {
                self.lemma_at(c, r);
                let x = self.index(c, r);
                if first.cells[x].is_revealed {
                    assert(second.cells[x].is_revealed);
                } else if self.fillable(c, r) {
                    assert(waited.contains(x as usize));
                }
            }
        }
    }

    /// The same for every opened cell at once; the cell opened since, if
    /// any, is left to the caller by `skips`.
    proof fn lemma_all_settled_kept(
        self,
        first: BoardView,
        second: BoardView,
        waited: Seq<usize>,
        waits: Seq<usize>,
        skips: int,
    )
        requires
            self.wf(),
            first.cells.len() == self.cells.len(),
            second.cells.len() == self.cells.len(),
            self.all_settled(first, waited, skips) || (self.all_settled(first, waited, -1)
                && !self.opened(first, skips)),
            forall|x: int|
                0 <= x < self.cells.len() && first.cells[x].is_revealed ==> (#[trigger] second.cells[x]).is_revealed,
            forall|x: int|
                0 <= x < self.cells.len() && x != skips && (#[trigger] second.cells[x]).is_revealed
                    ==> first.cells[x].is_revealed,
            self.carried_over(second, waited, waits),
        ensures
            self.all_settled(second, waits, skips),
    {
        assert forall|i: int| self.opened(second, i) && i != skips implies #[trigger] self.settled(
            second,
            waits,
            i,
            8,
        ) by {
            assert(second.cells[i].is_revealed);
            assert(self.opened(first, i));
            assert(self.settled(first, waited, i, 8));
            self.lemma_settled_kept(first, second, waited, waits, i, 8);
        }
    }

    /// A board part of the way through a reveal keeps the invariant, and has
    /// its mines where they were.
    proof fn lemma_partly_filled_wf(self, now: BoardView, from: (int, int))
        requires
            self.wf(),
            self.partly_filled(now, from),
        ensures
            now.wf(),
            self.counts_valid() ==> now.counts_valid(),
            now.mine_total() == self.mine_total(),
            forall|c: int, r: int| now.adjacent_mines(c, r) == self.adjacent_mines(c, r),
            forall|c: int, r: int| now.mine_at(c, r) == self.mine_at(c, r),
    {
        assert forall|i: int| 0 <= i < self.cells.len() implies {
            let a = #[trigger] now.cells[i];
            let b = self.cells[i];
            &&& a.col == b.col
            &&& a.row == b.row
            &&& a.is_mine == b.is_mine
            &&& a.nearby_mines == b.nearby_mines || (a.is_revealed && a.nearby_mines
                == self.adjacent_mines(b.col as int, b.row as int))
            &&& b.is_revealed ==> a.is_revealed
        } by {
            let b = self.cells[i];
            self.lemma_mines_among_bound(b.col as int, b.row as int, 8);
        }
        self.lemma_grid_kept(now);
    }

    /// A reveal keeps the invariant, the number of mines and the validity
    /// of the neighbour counts.
    pub proof fn lemma_revealed_from_wf(self, col: int, row: int)
        requires
            self.wf(),
        ensures
            self.revealed_from(col, row).wf(),
            self.revealed_from(col, row).mine_total() == self.mine_total(),
            self.counts_valid() ==> self.revealed_from(col, row).counts_valid(),
    {
        self.lemma_partly_filled_wf(self.revealed_from(col, row), (col, row));
    }

    /// A reveal begins with the cell aimed at waiting and nothing changed.
    proof fn lemma_fill_begin(self, from: (int, int))
        requires
            self.wf(),
            self.in_bounds(from.0, from.1),
        ensures
            self.fill_state(self, seq![self.index(from.0, from.1) as usize], from),
    {
        let start = self.index(from.0, from.1) as usize;
        let pending = seq![start];
        self.lemma_at(from.0, from.1);
        assert(pending[0] == start);
        if self.fillable(from.0, from.1) {
            self.lemma_fill_start(from);
        }
    }

    /// Taking a cell from `pending` that is uncovered, flagged or a mine
    /// leaves the reveal where it was.
    proof fn lemma_fill_skip(self, now: BoardView, pending: Seq<usize>, from: (int, int))
        requires
            self.fill_state(now, pending, from),
            pending.len() > 0,
            now.cells[pending.last() as int].is_revealed || now.cells[pending.last() as int].is_flagged
                || now.cells[pending.last() as int].is_mine,
        ensures
            self.fill_state(now, pending.drop_last(), from),
    {
        let j = pending.last();
        let rest = pending.drop_last();
        assert(j == pending[pending.len() - 1]);
        assert(self.cells[j as int].row * self.cols + self.cells[j as int].col == j);
        assert(self.at(self.position(j as int).0, self.position(j as int).1) == self.cells[j as int]);
        assert forall|t: int| 0 <= t < rest.len() implies {
            let x = #[trigger] rest[t];
            &&& x < self.cells.len()
            &&& self.fillable(self.position(x as int).0, self.position(x as int).1) ==> self.fills(
                from,
                self.position(x as int),
            )
        } by {
            assert(rest[t] == pending[t]);
        }
        assert forall|x: usize| #[trigger] pending.contains(x) implies rest.contains(x) || (x
            < self.cells.len() && (now.cells[x as int].is_revealed || !self.fillable(
            self.position(x as int).0,
            self.position(x as int).1,
        ))) by {
            lemma_contains_shrink(pending, x);
        }
        self.lemma_all_settled_kept(now, now, pending, rest, -1);
        self.lemma_at(from.0, from.1);
        if self.fillable(from.0, from.1) && !now.at(from.0, from.1).is_revealed {
            lemma_contains_shrink(pending, self.index(from.0, from.1) as usize);
        }
    }

    /// Taking a covered, unflagged, mine-free cell from `pending` and
    /// uncovering it moves the reveal on: the cell is one the fill reaches,
    /// one cell less is covered, and the neighbours of the cell are next.
    proof fn lemma_fill_uncover(self, now: BoardView, pending: Seq<usize>, from: (int, int), j: int)
        requires
            self.fill_state(now, pending, from),
            pending.len() > 0,
            j == pending.last(),
            !now.cells[j].is_revealed,
            !now.cells[j].is_flagged,
            !now.cells[j].is_mine,
        ensures
            now.cells[j] == self.cells[j],
            now.in_bounds(self.position(j).0, self.position(j).1),
            now.adjacent_mines(self.position(j).0, self.position(j).1) == self.adjacent_mines(
                self.position(j).0,
                self.position(j).1,
            ),
            self.adjacent_mines(self.position(j).0, self.position(j).1) <= 8,
            self.spreading(now.with_uncovered(self, j), pending.drop_last(), from, j, 0),
            tally(now.with_uncovered(self, j).cells, Property::Covered) < tally(
                now.cells,
                Property::Covered,
            ),
    {
        let rest = pending.drop_last();
        let cell = now.cells[j];
        let next = now.with_uncovered(self, j);
        assert(j == pending[pending.len() - 1]);
        assert(cell == self.cells[j]);
        assert(cell.row * self.cols + cell.col == j);
        assert(self.at(cell.col as int, cell.row as int) == cell);
        self.lemma_partly_filled_wf(now, from);
        self.lemma_mines_among_bound(cell.col as int, cell.row as int, 8);
        assert(self.partly_filled(next, from));
        self.lemma_partly_filled_wf(next, from);
        lemma_tally_update(now.cells, Property::Covered, j, self.uncovered(cell));
        assert forall|t: int| 0 <= t < rest.len() implies {
            let x = #[trigger] rest[t];
            &&& x < self.cells.len()
            &&& self.fillable(self.position(x as int).0, self.position(x as int).1) ==> self.fills(
                from,
                self.position(x as int),
            )
        } by {
            assert(rest[t] == pending[t]);
        }
        assert forall|x: usize| #[trigger] pending.contains(x) implies rest.contains(x) || (x
            < self.cells.len() && (next.cells[x as int].is_revealed || !self.fillable(
            self.position(x as int).0,
            self.position(x as int).1,
        ))) by {
            lemma_contains_shrink(pending, x);
        }
        self.lemma_all_settled_kept(now, next, pending, rest, j);
        self.lemma_at(from.0, from.1);
        if self.fillable(from.0, from.1) && !next.at(from.0, from.1).is_revealed {
            let start = self.index(from.0, from.1);
            assert(next.at(from.0, from.1) == next.cells[start]);
            assert(now.at(from.0, from.1) == now.cells[start]);
            lemma_contains_shrink(pending, start as usize);
        }
    }

    /// Going on to the next neighbour of the cell just uncovered, which has
    /// no mine around it: a neighbour on the grid that is still covered is
    /// put into `pending`, any other is passed over.
    proof fn lemma_fill_push(
        self,
        now: BoardView,
        pending: Seq<usize>,
        from: (int, int),
        j: int,
        k: int,
    )
        requires
            self.spreading(now, pending, from, j, k),
            0 <= k < 8,
            self.adjacent_mines(self.position(j).0, self.position(j).1) == 0,
        ensures
            ({
                let c = self.position(j).0 + dir(k).0;
                let r = self.position(j).1 + dir(k).1;
                if self.in_bounds(c, r) && !now.cells[self.index(c, r)].is_revealed {
                    self.spreading(now, pending.push(self.index(c, r) as usize), from, j, k + 1)
                } else {
                    self.spreading(now, pending, from, j, k + 1)
                }
            }),
    {
        let here = self.position(j);
        let c = here.0 + dir(k).0;
        let r = here.1 + dir(k).1;
        let pushed = self.in_bounds(c, r) && !now.cells[self.index(c, r)].is_revealed;
        let q = self.index(c, r) as usize;
        let waits = if pushed {
            pending.push(q)
        } else {
            pending
        };
        assert(self.at(here.0, here.1) == self.cells[j]) by {
            assert(self.cells[j].row * self.cols + self.cells[j].col == j);
        }
        if self.in_bounds(c, r) {
            self.lemma_at(c, r);
        }
        if pushed {
            assert(adjacent(here, (c, r)));
            if self.fillable(c, r) {
                self.lemma_fill_extend(from, here, (c, r));
            }
            assert forall|t: int| 0 <= t < waits.len() implies {
                let x = #[trigger] waits[t];
                &&& x < self.cells.len()
                &&& self.fillable(self.position(x as int).0, self.position(x as int).1)
                    ==> self.fills(from, self.position(x as int))
            } by {
                if t < pending.len() {
                    assert(waits[t] == pending[t]);
                }
            }
            lemma_contains_grow(pending, q, q);
        }
        assert forall|x: usize| #[trigger] pending.contains(x) implies waits.contains(x) || (x
            < self.cells.len() && (now.cells[x as int].is_revealed || !self.fillable(
            self.position(x as int).0,
            self.position(x as int).1,
        ))) by {
            if pushed {
                lemma_contains_grow(pending, q, x);
            }
        }
        self.lemma_all_settled_kept(now, now, pending, waits, j);
        self.lemma_settled_kept(now, now, pending, waits, j, k);
        self.lemma_at(from.0, from.1);
        assert forall|kk: int| 0 <= kk < k + 1 implies {
            let d = #[trigger] dir(kk);
            let c = self.cells[j].col + d.0;
            let r = self.cells[j].row + d.1;
            self.in_bounds(c, r) ==> now.cells[self.index(c, r)].is_revealed || !self.fillable(c, r)
                || waits.contains(self.index(c, r) as usize)
        } by {}
    }

    /// With the neighbours of the cell just uncovered gone through, or none
    /// to go through because the cell has a mine around it, the reveal is
    /// between two cells again.
    proof fn lemma_fill_spread(
        self,
        now: BoardView,
        pending: Seq<usize>,
        from: (int, int),
        j: int,
        upto: int,
    )
        requires
            self.spreading(now, pending, from, j, upto),
            upto == 8 || self.adjacent_mines(self.position(j).0, self.position(j).1) != 0,
        ensures
            self.fill_state(now, pending, from),
    {
        assert forall|i: int| self.opened(now, i) && i != -1 implies #[trigger] self.settled(
            now,
            pending,
            i,
            8,
        ) by {}
    }

    /// Once nothing waits any more, every cell along a way the fill can take
    /// from `from` has been uncovered.
    proof fn lemma_fill_complete(self, now: BoardView, from: (int, int), path: Seq<(int, int)>, k: int)
        requires
            self.fill_state(now, Seq::<usize>::empty(), from),
            self.fill_path(path),
            path[0] == from,
            0 <= k < path.len(),
        ensures
            now.at(path[k].0, path[k].1).is_revealed,
        decreases k,
    {
        if k == 0 {
            assert(self.fillable(path[0].0, path[0].1));
            assert(!Seq::<usize>::empty().contains(self.index(from.0, from.1) as usize));
        } else {
            self.lemma_fill_complete(now, from, path, k - 1);
            let p = path[k - 1];
            let q = path[k];
            assert(self.passes(path, k - 1));
            assert(self.fillable(q.0, q.1));
            self.lemma_at(p.0, p.1);
            let i = self.index(p.0, p.1);
            assert(self.opened(now, i));
            assert(self.settled(now, Seq::<usize>::empty(), i, 8));
            let kk = lemma_direction(p, q);
            assert(dir(kk) == (q.0 - p.0, q.1 - p.1));
            assert(!Seq::<usize>::empty().contains(self.index(q.0, q.1) as usize));
        }
    }

    /// With nothing waiting, a board part of the way through a reveal is the
    /// board after the reveal.
    proof fn lemma_fill_done(self, now: BoardView, from: (int, int))
        requires
            self.fill_state(now, Seq::<usize>::empty(), from),
        ensures
            now == self.revealed_from(from.0, from.1),
    {
        let target = self.revealed_from(from.0, from.1);
        assert forall|i: int| 0 <= i < self.cells.len() implies now.cells[i] == target.cells[i] by {
            let c = self.cells[i];
            let to = self.position(i);
            assert(c.row * self.cols + c.col == i);
            if self.fills(from, to) {
                let path = choose|path: Seq<(int, int)>|
                    #[trigger] self.fill_path(path) && path[0] == from && path.last() == to;
                self.lemma_fill_complete(now, from, path, path.len() - 1);
                self.lemma_fill_ends(from, to);
                assert(now.at(to.0, to.1) == now.cells[i]);
                assert(self.at(to.0, to.1) == c);
            }
        }
        assert(now.cells =~= target.cells);
    }

    /// A reveal uncovers no mine and no flagged cell.
    pub proof fn lemma_reveal_spares(self, col: int, row: int, i: int)
        requires
            self.wf(),
            0 <= i < self.cells.len(),
            self.revealed_from(col, row).cells[i].is_revealed,
            !self.cells[i].is_revealed,
        ensures
            !self.cells[i].is_mine,
            !self.cells[i].is_flagged,
    {
        self.lemma_fill_ends((col, row), self.position(i));
        assert(self.at(self.position(i).0, self.position(i).1) == self.cells[i]);
    }

    /// A reveal at a cell that cannot be uncovered, or off the grid, changes
    /// nothing.
    pub proof fn lemma_reveal_blocked(self, col: int, row: int)
        requires
            !self.fillable(col, row),
        ensures
            self.revealed_from(col, row) == self,
    {
        assert forall|i: int| 0 <= i < self.cells.len() implies !self.fills(
            (col, row),
            #[trigger] self.position(i),
        ) by {
            if self.fills((col, row), self.position(i)) {
                self.lemma_fill_ends((col, row), self.position(i));
            }
        }
        assert(self.revealed_from(col, row).cells =~= self.cells);
    }
}

/// Which of the eight neighbours of `a` the adjacent position `b` is.
pub proof fn lemma_direction(a: (int, int), b: (int, int)) -> (k: int)
    requires
        adjacent(a, b),
    ensures
        0 <= k < 8,
        dir(k) == (b.0 - a.0, b.1 - a.1),
{
    let dc = b.0 - a.0;
    let dr = b.1 - a.1;
    if dc == -1 {
        dr + 1
    } else if dc == 0 {
        if dr == -1 {
            3
        } else {
            4
        }
    } else {
        dr + 6
    }
}

/// One waiting index less: whatever waited still waits, unless it was the
/// last one.
proof fn lemma_contains_shrink(s: Seq<usize>, x: usize)
    requires
        s.len() > 0,
        s.contains(x),
    ensures
        s.drop_last().contains(x) || x == s.last(),
{
    let t = choose|t: int| 0 <= t < s.len() && s[t] == x;
    if t < s.len() - 1 {
        assert(s.drop_last()[t] == x);
    }
}

/// One waiting index more: whatever waited still waits, and so does the new one.
proof fn lemma_contains_grow(s: Seq<usize>, v: usize, x: usize)
    requires
        s.contains(x) || x == v,
    ensures
        s.push(v).contains(x),
{
    if s.contains(x) {
        let t = choose|t: int| 0 <= t < s.len() && s[t] == x;
        assert(s.push(v)[t] == x);
    } else {
        assert(s.push(v)[s.len() as int] == x);
    }
}

/// The column and row offsets of the `k`-th neighbour.
fn offset(k: u8) -> (d: (i8, i8))
    requires
        k < 8,
    ensures
        (d.0 as int, d.1 as int) == dir(k as int),
{
    if k == 0 {
        (-1, -1)
    } else if k == 1 {
        (-1, 0)
    } else if k == 2 {
        (-1, 1)
    } else if k == 3 {
        (0, -1)
    } else if k == 4 {
        (0, 1)
    } else if k == 5 {
        (1, -1)
    } else if k == 6 {
        (1, 0)
    } else {
        (1, 1)
    }
}

/// The coordinate one step `d` away from `v`, if it lies below `limit`.
fn moved(v: usize, d: i8, limit: usize) -> (r: Option<usize>)
    requires
        v < limit,
        -1 <= d <= 1,
    ensures
        r == (if 0 <= v + d < limit {
            Some((v + d) as usize)
        } else {
            None
        }),
{
    if d < 0 {
        if v == 0 {
            None
        } else {
            Some(v - 1)
        }
    } else if d == 0 {
        Some(v)
    } else if v + 1 < limit {
        Some(v + 1)
    } else {
        None
    }
}

impl Board {
    /// The index of the `k`-th neighbour of the cell at `(col, row)`, or
    /// `None` where that neighbour would lie off the grid.
    fn neighbor(&self, col: usize, row: usize, k: u8) -> (found: Option<usize>)
        requires
            self@.wf(),
            self@.in_bounds(col as int, row as int),
            k < 8,
        ensures
            found == (if self@.in_bounds(col + dir(k as int).0, row + dir(k as int).1) {
                Some(self@.index(col + dir(k as int).0, row + dir(k as int).1) as usize)
            } else {
                None
            }),
            found matches Some(j) ==> j < self@.cells.len() && self@.position(j as int) == (
                col + dir(k as int).0,
                row + dir(k as int).1,
            ),
    {
        let d = offset(k);
        let c = moved(col, d.0, self.cols());
        let r = moved(row, d.1, self.rows());
        match (c, r) {
            (Some(c), Some(r)) => {
                proof {
                    self@.lemma_at(c as int, r as int);
                    lemma_index_in_range(self@.rows, self@.cols, c as int, r as int);
                }
                Some(r * self.cols() + c)
            },
            _ => None,
        }
    }

    /// The number of mines among the neighbours of the cell at `(col, row)`.
    fn count_adjacent_mines(&self, col: usize, row: usize) -> (n: u8)
        requires
            self@.wf(),
            self@.in_bounds(col as int, row as int),
        ensures
            n == self@.adjacent_mines(col as int, row as int),
    {
        let mut n: u8 = 0;
        let mut k: u8 = 0;
        while k < 8
            invariant
                k <= 8,
                n <= k,
                n == self@.mines_among(col as int, row as int, k as nat),
                self@.wf(),
                self@.in_bounds(col as int, row as int),
            decreases 8 - k,
        {
            match self.neighbor(col, row, k) {
                Some(j) => {
                    if self.cell_at(j).is_mine {
                        n += 1;
                    }
                },
                None => {},
            }
            k += 1;
        }
        n
    }

    /// Uncovers the cell at `(col, row)` and floods outwards from it.
    ///
    /// Nothing happens for a position off the grid or a cell that is already
    /// uncovered, flagged or a mine. Otherwise the cell is uncovered and the
    /// number of mines around it stored; if that number is zero the same is
    /// done for each of its neighbours, and so on, so that the connected
    /// region of cells with no mine around them is uncovered together with
    /// the ring of numbered cells that borders it, and nothing beyond.
    pub fn reveal_cell(&mut self, col: i32, row: i32)
        requires
            old(self)@.wf(),
        ensures
            final(self)@ == old(self)@.revealed_from(col as int, row as int),
            final(self)@.wf(),
            forall|i: int|
                0 <= i < final(self)@.cells.len() && (#[trigger] final(self)@.cells[i]).is_revealed
                    && !old(self)@.cells[i].is_revealed ==> !final(self)@.cells[i].is_mine,
    {
        let ghost before = self@;
        let ghost from = (col as int, row as int);
        let start = match self.locate(col, row) {
            Some(i) => i,
            None => {
                proof {
                    before.lemma_reveal_blocked(from.0, from.1);
                }
                return ;
            },
        };
        let mut pending: Vec<usize> = Vec::new();
        pending.push(start);
        proof {
            before.lemma_fill_begin(from);
            assert(pending@ =~= seq![start]);
        }
        while pending.len() > 0
            invariant
                before.fill_state(self@, pending@, from),
            decreases tally(self@.cells, Property::Covered), pending@.len(),
        {
            let ghost waited = pending@;
            let j = pending.pop().unwrap();
            let cell = self.cell_at(j);
            if cell.is_revealed || cell.is_flagged || cell.is_mine {
                proof {
                    before.lemma_fill_skip(self@, waited, from);
                }
            } else {
                proof {
                    before.lemma_fill_uncover(self@, waited, from, j as int);
                }
                let count = self.count_adjacent_mines(cell.col, cell.row);
                let mut shown = cell;
                shown.is_revealed = true;
                shown.nearby_mines = count;
                if count == 0 {
                    shown.is_flagged = false;
                }
                self.put(j, shown);
                if count == 0 {
                    let mut k: u8 = 0;
                    while k < 8
                        invariant
                            k <= 8,
                            j < before.cells.len(),
                            before.position(j as int) == (cell.col as int, cell.row as int),
                            before.adjacent_mines(cell.col as int, cell.row as int) == 0,
                            before.spreading(self@, pending@, from, j as int, k as int),
                        decreases 8 - k,
                    {
                        proof {
                            before.lemma_fill_push(self@, pending@, from, j as int, k as int);
                        }
                        match self.neighbor(cell.col, cell.row, k) {
                            Some(q) => {
                                if !self.cell_at(q).is_revealed {
                                    pending.push(q);
                                }
                            },
                            None => {},
                        }
                        k += 1;
                    }
                }
                proof {
                    before.lemma_fill_spread(
                        self@,
                        pending@,
                        from,
                        j as int,
                        if count == 0 {
                            8
                        } else {
                            0
                        },
                    );
                }
            }
        }
        proof {
            assert(pending@ =~= Seq::<usize>::empty());
            before.lemma_fill_done(self@, from);
            assert forall|i: int|
                0 <= i < self@.cells.len() && (#[trigger] self@.cells[i]).is_revealed
                    && !before.cells[i].is_revealed implies !self@.cells[i].is_mine by {
                before.lemma_reveal_spares(from.0, from.1, i);
            }
        }
    }
}

} // verus!
