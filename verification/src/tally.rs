//! Counting the cells of a grid that have a given property.

use crate::cell::Cell;
use vstd::prelude::*;

verus! {

/// A property of a single cell that the board counts or searches by.
pub enum Property {
    /// The cell hides a mine.
    Mine,
    /// The cell hides no mine.
    Safe,
    /// The cell carries a flag.
    Flagged,
    /// The cell is still covered.
    Covered,
    /// The cell is uncovered and hides no mine.
    SafeRevealed,
    /// The cell hides no mine and does not sit at the given position: it can
    /// still take a mine when the given position is to be kept clear.
    Vacant { col: int, row: int },
}

impl Property {
    /// Whether `cell` has the property.
    pub open spec fn holds(self, cell: Cell) -> bool {
        match self {
            Property::Mine => cell.is_mine,
            Property::Safe => !cell.is_mine,
            Property::Flagged => cell.is_flagged,
            Property::Covered => !cell.is_revealed,
            Property::SafeRevealed => cell.is_revealed && !cell.is_mine,
            Property::Vacant { col, row } => !cell.is_mine && !(cell.col == col && cell.row == row),
        }
    }
}

/// The number of cells of `cells` that have property `p`.
pub open spec fn tally(cells: Seq<Cell>, p: Property) -> nat
    decreases cells.len(),
{
    if cells.len() == 0 {
        0
    } else {
        tally(cells.drop_last(), p) + if p.holds(cells.last()) {
            1nat
        } else {
            0nat
        }
    }
}

/// Whether `i` is the position in `cells` of the cell that has property `p`
/// and is preceded by exactly `k` other cells that have it.
pub open spec fn is_nth(cells: Seq<Cell>, p: Property, k: int, i: int) -> bool {
    &&& 0 <= i < cells.len()
    &&& p.holds(cells[i])
    &&& tally(cells.take(i), p) == k
}

/// Counting one cell more: the count over the first `i + 1` cells is the
/// count over the first `i`, plus one if cell `i` has the property.
pub proof fn lemma_tally_step(cells: Seq<Cell>, p: Property, i: int)
    requires
        0 <= i < cells.len(),
    ensures
        tally(cells.take(i + 1), p) == tally(cells.take(i), p) + if p.holds(cells[i]) {
            1nat
        } else {
            0nat
        },
{
    assert(cells.take(i + 1).drop_last() =~= cells.take(i));
}

/// The count over a prefix grows with the prefix.
pub proof fn lemma_tally_prefix(cells: Seq<Cell>, p: Property, i: int, j: int)
    requires
        0 <= i <= j <= cells.len(),
    ensures
        tally(cells.take(i), p) <= tally(cells.take(j), p),
    decreases j - i,
{
    if i < j {
        lemma_tally_prefix(cells, p, i, j - 1);
        lemma_tally_step(cells, p, j - 1);
    }
}

/// Replacing one cell changes the count by what the old cell took away and
/// what the new cell brings.
pub proof fn lemma_tally_update(cells: Seq<Cell>, p: Property, i: int, cell: Cell)
    requires
        0 <= i < cells.len(),
    ensures
        tally(cells.update(i, cell), p) + (if p.holds(cells[i]) {
            1nat
        } else {
            0nat
        }) == tally(cells, p) + (if p.holds(cell) {
            1nat
        } else {
            0nat
        }),
    decreases cells.len(),
{
    let after = cells.update(i, cell);
    if i == cells.len() - 1 {
        assert(after.drop_last() =~= cells.drop_last());
    } else {
        assert(after.drop_last() =~= cells.drop_last().update(i, cell));
        lemma_tally_update(cells.drop_last(), p, i, cell);
    }
}

/// Two grids that agree on the property, cell by cell, have the same count.
pub proof fn lemma_tally_agree(a: Seq<Cell>, b: Seq<Cell>, p: Property)
    requires
        a.len() == b.len(),
        forall|i: int| 0 <= i < a.len() ==> p.holds(#[trigger] a[i]) == p.holds(b[i]),
    ensures
        tally(a, p) == tally(b, p),
    decreases a.len(),
{
    if a.len() > 0 {
        assert(p.holds(a[a.len() - 1]) == p.holds(b[a.len() - 1]));
        lemma_tally_agree(a.drop_last(), b.drop_last(), p);
    }
}

/// The count is zero exactly when no cell has the property.
pub proof fn lemma_tally_zero(cells: Seq<Cell>, p: Property)
    ensures
        tally(cells, p) == 0 <==> forall|i: int| 0 <= i < cells.len() ==> !p.holds(#[trigger] cells[i]),
    decreases cells.len(),
{
    if cells.len() > 0 {
        let front = cells.drop_last();
        lemma_tally_zero(front, p);
        if tally(cells, p) == 0 {
            assert forall|i: int| 0 <= i < cells.len() implies !p.holds(#[trigger] cells[i]) by {
                if i < cells.len() - 1 {
                    assert(front[i] == cells[i]);
                }
            }
        }
        if forall|i: int| 0 <= i < cells.len() ==> !p.holds(#[trigger] cells[i]) {
            assert forall|i: int| 0 <= i < front.len() implies !p.holds(#[trigger] front[i]) by {
                assert(front[i] == cells[i]);
            }
            assert(!p.holds(cells[cells.len() - 1]));
        }
    }
}

/// If every cell with property `p` also has property `q`, the count of `p`
/// is at most the count of `q`, and the two are equal exactly when every cell
/// with `q` has `p` as well.
pub proof fn lemma_tally_within(cells: Seq<Cell>, p: Property, q: Property)
    requires
        forall|i: int| 0 <= i < cells.len() ==> p.holds(#[trigger] cells[i]) ==> q.holds(cells[i]),
    ensures
        tally(cells, p) <= tally(cells, q),
        tally(cells, p) == tally(cells, q) <==> forall|i: int|
            0 <= i < cells.len() ==> q.holds(#[trigger] cells[i]) ==> p.holds(cells[i]),
    decreases cells.len(),
{
    if cells.len() > 0 {
        let front = cells.drop_last();
        let last = cells.len() - 1;
        assert forall|i: int| 0 <= i < front.len() && p.holds(#[trigger] front[i]) implies q.holds(
            front[i],
        ) by {
            assert(front[i] == cells[i]);
        }
        lemma_tally_within(front, p, q);
        assert(p.holds(cells[last]) ==> q.holds(cells[last]));
        if tally(cells, p) == tally(cells, q) {
            assert forall|i: int| 0 <= i < cells.len() && q.holds(#[trigger] cells[i]) implies p.holds(
                cells[i],
            ) by {
                if i < last {
                    assert(front[i] == cells[i]);
                }
            }
        }
        if forall|i: int| 0 <= i < cells.len() ==> q.holds(#[trigger] cells[i]) ==> p.holds(cells[i]) {
            assert forall|i: int| 0 <= i < front.len() && q.holds(#[trigger] front[i]) implies p.holds(
                front[i],
            ) by {
                assert(front[i] == cells[i]);
            }
            assert(q.holds(cells[last]) ==> p.holds(cells[last]));
        }
    }
}

/// Mines and mine-free cells together make up the whole grid.
pub proof fn lemma_tally_mines_and_safe(cells: Seq<Cell>)
    ensures
        tally(cells, Property::Mine) + tally(cells, Property::Safe) == cells.len(),
    decreases cells.len(),
{
    if cells.len() > 0 {
        lemma_tally_mines_and_safe(cells.drop_last());
    }
}

} // verus!
