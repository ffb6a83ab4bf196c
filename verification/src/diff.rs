//! The sparse diff between one generation and the next, and what it means to
//! write a diff into a board.

use vstd::prelude::*;
use crate::rules::{
    changes, in_bounds, is_board, next_generation, set_cell, successor, Board, LifeState,
};

verus! {

/// One entry of a diff: the row and column of a cell and the state it takes.
pub type Change = (u32, u32, LifeState);

/// The entry for the cell at `(r, c)` of `b` in the diff of `b`'s generation.
pub open spec fn change_at(b: Board, r: int, c: int) -> Change {
    (r as u32, c as u32, successor(b, r, c))
}

/// The entries for the cells of row `r` in columns `1` to `c_end - 1` whose
/// state changes, from left to right.
pub open spec fn row_changes(b: Board, r: int, c_end: int) -> Seq<Change>
    decreases c_end,
{
    if c_end <= 1 {
        Seq::empty()
    } else {
        let before = row_changes(b, r, c_end - 1);
        if changes(b, r, c_end - 1) {
            before.push(change_at(b, r, c_end - 1))
        } else {
            before
        }
    }
}

/// The entries for the cells of rows `1` to `r_end - 1` whose state changes,
/// row by row from the top.
pub open spec fn changes_above(b: Board, r_end: int) -> Seq<Change>
    decreases r_end,
{
    if r_end <= 1 {
        Seq::empty()
    } else {
        changes_above(b, r_end - 1) + row_changes(b, r_end - 1, b[r_end - 1].len() - 1)
    }
}

/// The diff of one generation: an entry for every interior cell of `b` whose
/// state changes, in row-major order, each with its new state.
pub open spec fn next_diff(b: Board) -> Seq<Change> {
    changes_above(b, b.len() - 1)
}

/// `p` names a cell that comes before the cell of `q` in row-major order.
pub open spec fn precedes(p: Change, q: Change) -> bool {
    p.0 < q.0 || (p.0 == q.0 && p.1 < q.1)
}

/// Every entry of `d` names a cell of `b` whose state changes, and carries
/// that cell's state in the next generation.
pub open spec fn diff_sound(b: Board, d: Seq<Change>) -> bool {
    forall|i: int|
        0 <= i < d.len() ==> changes(b, (#[trigger] d[i]).0 as int, d[i].1 as int) && d[i].2
            == successor(b, d[i].0 as int, d[i].1 as int)
}

/// The entries of `d` come in strictly increasing row-major order, so no cell
/// is named twice.
pub open spec fn diff_ordered(d: Seq<Change>) -> bool {
    forall|i: int, j: int| 0 <= i < j < d.len() ==> precedes(#[trigger] d[i], #[trigger] d[j])
}

/// Every cell of `b` whose state changes has its entry in `d`.
pub open spec fn diff_complete(b: Board, d: Seq<Change>) -> bool {
    forall|r: int, c: int| #[trigger]
        changes(b, r, c) ==> exists|i: int| 0 <= i < d.len() && #[trigger] d[i] == change_at(b, r, c)
}

/// `d` is the diff of `b`'s generation: exactly the cells that change, each
/// once, in row-major order, with their new states.
pub open spec fn is_generation_diff(b: Board, d: Seq<Change>) -> bool {
    &&& diff_sound(b, d)
    &&& diff_ordered(d)
    &&& diff_complete(b, d)
}

/// Every entry of `d` names a cell of `b`.
pub open spec fn diff_in_bounds(b: Board, d: Seq<Change>) -> bool {
    forall|i: int| 0 <= i < d.len() ==> in_bounds(b, (#[trigger] d[i]).0 as int, d[i].1 as int)
}

/// The board `b` after the entries of `d` were written into it one after the
/// other, from the first to the last.
pub open spec fn apply_diff(b: Board, d: Seq<Change>) -> Board
    decreases d.len(),
{
    if d.len() == 0 {
        b
    } else {
        let e = d.last();
        set_cell(apply_diff(b, d.drop_last()), e.0 as int, e.1 as int, e.2)
    }
}

/// The state that the last entry of `d` for the cell at `(r, c)` carries, if
/// `d` has an entry for that cell.
pub open spec fn last_write(d: Seq<Change>, r: int, c: int) -> Option<LifeState>
    decreases d.len(),
{
    if d.len() == 0 {
        None
    } else if d.last().0 == r && d.last().1 == c {
        Some(d.last().2)
    } else {
        last_write(d.drop_last(), r, c)
    }
}

/// The state of the cell at `(r, c)` once `d` was written into `b`: what the
/// last entry for that cell says, or the cell's old state if there is none.
pub open spec fn cell_after(b: Board, d: Seq<Change>, r: int, c: int) -> LifeState {
    match last_write(d, r, c) {
        Some(state) => state,
        None => b[r][c],
    }
}

/// The entries of one row up to a column: each names a changing cell of that
/// row left of the column, they come in order, and no such cell is missing.
proof fn lemma_row_changes(b: Board, r: int, c_end: int)
    requires
        0 <= r <= u32::MAX,
        c_end <= u32::MAX,
    ensures
        diff_sound(b, row_changes(b, r, c_end)),
        diff_ordered(row_changes(b, r, c_end)),
        forall|i: int|
            0 <= i < row_changes(b, r, c_end).len() ==> (#[trigger] row_changes(b, r, c_end)[i]).0
                == r && row_changes(b, r, c_end)[i].1 < c_end,
        forall|c: int|
            c < c_end && #[trigger] changes(b, r, c) ==> exists|i: int|
                0 <= i < row_changes(b, r, c_end).len() && #[trigger] row_changes(b, r, c_end)[i]
                    == change_at(b, r, c),
    decreases c_end,
{
    if c_end > 1 {
        lemma_row_changes(b, r, c_end - 1);
        let before = row_changes(b, r, c_end - 1);
        let d = row_changes(b, r, c_end);
        assert forall|c: int| c < c_end && #[trigger] changes(b, r, c) implies exists|i: int|
            0 <= i < d.len() && #[trigger] d[i] == change_at(b, r, c) by {
            if c < c_end - 1 {
                let i = choose|i: int|
                    0 <= i < before.len() && #[trigger] before[i] == change_at(b, r, c);
                assert(d[i] == change_at(b, r, c));
            } else {
                assert(d[d.len() - 1] == change_at(b, r, c));
            }
        }
    }
}

/// The entries of the rows above a row: each names a changing cell of those
/// rows, they come in order, and no such cell is missing.
proof fn lemma_changes_above(b: Board, rows: nat, columns: nat, r_end: int)
    requires
        is_board(b, rows, columns),
        rows <= u32::MAX,
        columns <= u32::MAX,
        r_end <= rows - 1,
    ensures
        diff_sound(b, changes_above(b, r_end)),
        diff_ordered(changes_above(b, r_end)),
        forall|i: int|
            0 <= i < changes_above(b, r_end).len() ==> (#[trigger] changes_above(b, r_end)[i]).0
                < r_end,
        forall|r: int, c: int|
            r < r_end && #[trigger] changes(b, r, c) ==> exists|i: int|
                0 <= i < changes_above(b, r_end).len() && #[trigger] changes_above(b, r_end)[i]
                    == change_at(b, r, c),
    decreases r_end,
{
    if r_end > 1 {
        lemma_changes_above(b, rows, columns, r_end - 1);
        lemma_row_changes(b, r_end - 1, columns - 1);
        let above = changes_above(b, r_end - 1);
        let row = row_changes(b, r_end - 1, columns - 1);
        let d = changes_above(b, r_end);
        assert(d == above + row);
        assert forall|i: int| 0 <= i < d.len() implies changes(
            b,
            (#[trigger] d[i]).0 as int,
            d[i].1 as int,
        ) && d[i].2 == successor(b, d[i].0 as int, d[i].1 as int) && d[i].0 < r_end by {
            if i < above.len() {
                assert(d[i] == above[i]);
            } else {
                assert(d[i] == row[i - above.len()]);
            }
        }
        assert forall|i: int, j: int| 0 <= i < j < d.len() implies precedes(
            #[trigger] d[i],
            #[trigger] d[j],
        ) by {
            if j < above.len() {
                assert(d[i] == above[i] && d[j] == above[j]);
            } else if i < above.len() {
                assert(d[i] == above[i] && d[j] == row[j - above.len()]);
            } else {
                assert(d[i] == row[i - above.len()] && d[j] == row[j - above.len()]);
            }
        }
        assert forall|r: int, c: int| r < r_end && #[trigger] changes(b, r, c) implies exists|
            i: int,
        |
            0 <= i < d.len() && #[trigger] d[i] == change_at(b, r, c) by {
            if r < r_end - 1 {
                let i = choose|i: int|
                    0 <= i < above.len() && #[trigger] above[i] == change_at(b, r, c);
                assert(d[i] == change_at(b, r, c));
            } else {
                let i = choose|i: int| 0 <= i < row.len() && #[trigger] row[i] == change_at(b, r, c);
                assert(d[above.len() + i] == change_at(b, r, c));
            }
        }
    }
}

/// The diff of a generation names exactly the cells that change, each once,
/// in row-major order, with their new states.
pub proof fn lemma_next_diff_is_generation_diff(b: Board, rows: nat, columns: nat)
    requires
        is_board(b, rows, columns),
        rows <= u32::MAX,
        columns <= u32::MAX,
    ensures
        is_generation_diff(b, next_diff(b)),
{
    lemma_changes_above(b, rows, columns, rows - 1);
}

/// Writing a diff whose entries name cells of the board keeps the board's
/// shape, and leaves in every cell what `cell_after` says.
pub proof fn lemma_apply_diff_cells(b: Board, d: Seq<Change>)
    requires
        diff_in_bounds(b, d),
    ensures
        apply_diff(b, d).len() == b.len(),
        forall|r: int| 0 <= r < b.len() ==> (#[trigger] apply_diff(b, d)[r]).len() == b[r].len(),
        forall|r: int, c: int|
            in_bounds(b, r, c) ==> #[trigger] apply_diff(b, d)[r][c] == cell_after(b, d, r, c),
    decreases d.len(),
{
    if d.len() > 0 {
        let rest = d.drop_last();
        assert forall|i: int| 0 <= i < rest.len() implies in_bounds(
            b,
            (#[trigger] rest[i]).0 as int,
            rest[i].1 as int,
        ) by {
            assert(rest[i] == d[i]);
        }
        lemma_apply_diff_cells(b, rest);
        assert(in_bounds(b, d.last().0 as int, d.last().1 as int)) by {
            assert(d.last() == d[d.len() - 1]);
        }
    }
}

/// In a sound diff the last entry for a cell, if there is one, carries the
/// state the rule gives that cell.
proof fn lemma_sound_writes(b: Board, d: Seq<Change>, r: int, c: int)
    requires
        diff_sound(b, d),
    ensures
        match last_write(d, r, c) {
            Some(state) => state == successor(b, r, c),
            None => forall|i: int| 0 <= i < d.len() ==> !((#[trigger] d[i]).0 == r && d[i].1 == c),
        },
    decreases d.len(),
{
    if d.len() > 0 {
        let rest = d.drop_last();
        assert forall|i: int| 0 <= i < rest.len() implies changes(
            b,
            (#[trigger] rest[i]).0 as int,
            rest[i].1 as int,
        ) && rest[i].2 == successor(b, rest[i].0 as int, rest[i].1 as int) by {
            assert(rest[i] == d[i]);
        }
        lemma_sound_writes(b, rest, r, c);
        assert(d.last() == d[d.len() - 1]);
        if last_write(d, r, c) is None {
            assert forall|i: int| 0 <= i < d.len() implies !((#[trigger] d[i]).0 == r && d[i].1
                == c) by {
                if i < d.len() - 1 {
                    assert(rest[i] == d[i]);
                }
            }
        }
    }
}

/// Writing the diff of a generation into the board it was computed from gives
/// the next generation: every cell holds the state the rule gives it against
/// the board as it stood before any write.
pub proof fn lemma_diff_yields_next_generation(
    b: Board,
    d: Seq<Change>,
    rows: nat,
    columns: nat,
)
    requires
        is_board(b, rows, columns),
        rows <= u32::MAX,
        columns <= u32::MAX,
        is_generation_diff(b, d),
    ensures
        diff_in_bounds(b, d),
        apply_diff(b, d) == next_generation(b),
{
    assert forall|i: int| 0 <= i < d.len() implies in_bounds(
        b,
        (#[trigger] d[i]).0 as int,
        d[i].1 as int,
    ) by {
        assert(changes(b, d[i].0 as int, d[i].1 as int));
    }
    lemma_apply_diff_cells(b, d);
    let after = apply_diff(b, d);
    let next = next_generation(b);
    assert forall|r: int, c: int| in_bounds(b, r, c) implies #[trigger] after[r][c] == next[r][c] by {
        lemma_sound_writes(b, d, r, c);
        if changes(b, r, c) {
            let i = choose|i: int| 0 <= i < d.len() && #[trigger] d[i] == change_at(b, r, c);
            assert(d[i].0 == r && d[i].1 == c);
        }
    }
    assert(after =~~= next);
}

} // verus!
