//! What holds of every board and every generation, proved from the
//! definitions of the rule and of the diff.

use vstd::prelude::*;
use crate::diff::{
    change_at, is_generation_diff, lemma_diff_yields_next_generation,
    lemma_next_diff_is_generation_diff, next_diff, precedes, Change,
};
use crate::rules::{
    alive_neighbors, changes, in_bounds, is_alive, is_board, is_interior, next_generation,
    set_cell, successor, Board, LifeState,
};

verus! {

/// The alive cells of `b` are exactly the four cells of the two-by-two block
/// whose top-left cell is `(r0, c0)`.
pub open spec fn is_block(b: Board, r0: int, c0: int) -> bool {
    forall|r: int, c: int| #[trigger]
        is_alive(b, r, c) <==> (r0 <= r <= r0 + 1 && c0 <= c <= c0 + 1)
}

/// No entry of `d` names the cell at `(r, c)`.
pub open spec fn not_named(d: Seq<Change>, r: int, c: int) -> bool {
    forall|i: int| 0 <= i < d.len() ==> !((#[trigger] d[i]).0 == r && d[i].1 == c)
}

/// The border is inert: no entry of a generation's diff names a cell in the
/// first or last row or in the first or last column, whatever the states of
/// the cells around it, and such a cell has the same state one generation on.
pub proof fn lemma_border_is_inert(b: Board, rows: nat, columns: nat)
    requires
        is_board(b, rows, columns),
        rows <= u32::MAX,
        columns <= u32::MAX,
    ensures
        forall|i: int|
            0 <= i < next_diff(b).len() ==> 0 < (#[trigger] next_diff(b)[i]).0 < rows - 1 && 0
                < next_diff(b)[i].1 < columns - 1,
        forall|r: int, c: int|
            in_bounds(b, r, c) && (r == 0 || r == rows - 1 || c == 0 || c == columns - 1)
                ==> not_named(next_diff(b), r, c) && #[trigger] next_generation(b)[r][c]
                == b[r][c],
{
    lemma_next_diff_is_generation_diff(b, rows, columns);
    let d = next_diff(b);
    assert forall|i: int| 0 <= i < d.len() implies 0 < (#[trigger] d[i]).0 < rows - 1 && 0
        < d[i].1 < columns - 1 by {
        assert(changes(b, d[i].0 as int, d[i].1 as int));
    }
}

/// Underpopulation: an alive interior cell with fewer than two alive
/// neighbors is dead one generation on, and the diff says so.
pub proof fn lemma_underpopulation(b: Board, rows: nat, columns: nat, r: int, c: int)
    requires
        is_board(b, rows, columns),
        rows <= u32::MAX,
        columns <= u32::MAX,
        is_interior(b, r, c),
        b[r][c] == LifeState::Alive,
        alive_neighbors(b, r, c) < 2,
    ensures
        successor(b, r, c) == LifeState::Dead,
        next_generation(b)[r][c] == LifeState::Dead,
        next_diff(b).contains((r as u32, c as u32, LifeState::Dead)),
{
    lemma_changed_cell_is_named(b, rows, columns, r, c);
}

/// Overpopulation: an alive interior cell with more than three alive
/// neighbors is dead one generation on, and the diff says so.
pub proof fn lemma_overpopulation(b: Board, rows: nat, columns: nat, r: int, c: int)
    requires
        is_board(b, rows, columns),
        rows <= u32::MAX,
        columns <= u32::MAX,
        is_interior(b, r, c),
        b[r][c] == LifeState::Alive,
        alive_neighbors(b, r, c) > 3,
    ensures
        successor(b, r, c) == LifeState::Dead,
        next_generation(b)[r][c] == LifeState::Dead,
        next_diff(b).contains((r as u32, c as u32, LifeState::Dead)),
{
    lemma_changed_cell_is_named(b, rows, columns, r, c);
}

/// Survival: an alive interior cell with two or three alive neighbors stays
/// alive, and the diff does not name it.
pub proof fn lemma_survival(b: Board, rows: nat, columns: nat, r: int, c: int)
    requires
        is_board(b, rows, columns),
        rows <= u32::MAX,
        columns <= u32::MAX,
        is_interior(b, r, c),
        b[r][c] == LifeState::Alive,
        2 <= alive_neighbors(b, r, c) <= 3,
    ensures
        successor(b, r, c) == LifeState::Alive,
        next_generation(b)[r][c] == LifeState::Alive,
        not_named(next_diff(b), r, c),
{
    lemma_unchanged_cell_is_not_named(b, rows, columns, r, c);
}

/// Birth: a dead interior cell with exactly three alive neighbors is alive
/// one generation on, and the diff says so.
pub proof fn lemma_birth(b: Board, rows: nat, columns: nat, r: int, c: int)
    requires
        is_board(b, rows, columns),
        rows <= u32::MAX,
        columns <= u32::MAX,
        is_interior(b, r, c),
        b[r][c] == LifeState::Dead,
        alive_neighbors(b, r, c) == 3,
    ensures
        successor(b, r, c) == LifeState::Alive,
        next_generation(b)[r][c] == LifeState::Alive,
        next_diff(b).contains((r as u32, c as u32, LifeState::Alive)),
{
    lemma_changed_cell_is_named(b, rows, columns, r, c);
}

/// No birth: a dead interior cell whose number of alive neighbors is not
/// three, be it two or four, stays dead, and the diff does not name it.
pub proof fn lemma_no_birth(b: Board, rows: nat, columns: nat, r: int, c: int)
    requires
        is_board(b, rows, columns),
        rows <= u32::MAX,
        columns <= u32::MAX,
        is_interior(b, r, c),
        b[r][c] == LifeState::Dead,
        alive_neighbors(b, r, c) != 3,
    ensures
        successor(b, r, c) == LifeState::Dead,
        next_generation(b)[r][c] == LifeState::Dead,
        not_named(next_diff(b), r, c),
{
    lemma_unchanged_cell_is_not_named(b, rows, columns, r, c);
}

/// Still life: on a board whose alive cells are exactly a two-by-two block,
/// the diff of a generation is empty and the next generation is the board
/// itself.
pub proof fn lemma_block_is_still(b: Board, rows: nat, columns: nat, r0: int, c0: int)
    requires
        is_board(b, rows, columns),
        rows <= u32::MAX,
        columns <= u32::MAX,
        is_block(b, r0, c0),
    ensures
        next_diff(b) == Seq::<Change>::empty(),
        next_generation(b) == b,
{
    assert forall|r: int, c: int| !changes(b, r, c) by {
        if is_interior(b, r, c) {
            assert(is_alive(b, r, c) <==> b[r][c] == LifeState::Alive);
        }
    }
    lemma_next_diff_is_generation_diff(b, rows, columns);
    let d = next_diff(b);
    if d.len() > 0 {
        assert(changes(b, d[0].0 as int, d[0].1 as int));
    }
    assert(d =~= Seq::<Change>::empty());
    assert forall|r: int, c: int| in_bounds(b, r, c) implies #[trigger] next_generation(b)[r][c]
        == b[r][c] by {
        assert(!changes(b, r, c));
    }
    assert(next_generation(b) =~~= b);
}

/// Activation is seen at once: on the board with the cell at `(r, c)` set
/// alive, that cell reads alive, with no generation in between, and every
/// other cell reads as before.
pub proof fn lemma_activate_then_read(b: Board, r: int, c: int)
    requires
        in_bounds(b, r, c),
    ensures
        set_cell(b, r, c, LifeState::Alive)[r][c] == LifeState::Alive,
        forall|r2: int, c2: int|
            in_bounds(b, r2, c2) && !(r2 == r && c2 == c) ==> #[trigger] set_cell(
                b,
                r,
                c,
                LifeState::Alive,
            )[r2][c2] == b[r2][c2],
{
}

/// Computing a generation's diff is repeatable: whatever two computations on
/// the same board return, if each names exactly the changing cells, in order
/// and with their new states, the two diffs are equal.
pub proof fn lemma_diff_is_repeatable(b: Board, first: Seq<Change>, second: Seq<Change>)
    requires
        is_generation_diff(b, first),
        is_generation_diff(b, second),
    ensures
        first == second,
{
    lemma_common_prefix(b, first, second, first.len() as int);
    lemma_common_prefix(b, second, first, second.len() as int);
    assert(first =~= second);
}

/// One generation is one synchronous step: writing a board's diff into it
/// leaves every cell with the state the rule gives it against the board as
/// it stood before the first write.
pub proof fn lemma_generation_is_synchronous(b: Board, rows: nat, columns: nat)
    requires
        is_board(b, rows, columns),
        rows <= u32::MAX,
        columns <= u32::MAX,
    ensures
        crate::diff::apply_diff(b, next_diff(b)) == next_generation(b),
        forall|r: int, c: int|
            in_bounds(b, r, c) ==> #[trigger] next_generation(b)[r][c] == successor(b, r, c),
{
    lemma_next_diff_is_generation_diff(b, rows, columns);
    lemma_diff_yields_next_generation(b, next_diff(b), rows, columns);
}

/// A cell whose state changes has its entry in the diff.
proof fn lemma_changed_cell_is_named(b: Board, rows: nat, columns: nat, r: int, c: int)
    requires
        is_board(b, rows, columns),
        rows <= u32::MAX,
        columns <= u32::MAX,
        changes(b, r, c),
    ensures
        next_diff(b).contains(change_at(b, r, c)),
{
    lemma_next_diff_is_generation_diff(b, rows, columns);
    let d = next_diff(b);
    let i = choose|i: int| 0 <= i < d.len() && #[trigger] d[i] == change_at(b, r, c);
    assert(d[i] == change_at(b, r, c));
}

/// A cell whose state does not change has no entry in the diff.
proof fn lemma_unchanged_cell_is_not_named(b: Board, rows: nat, columns: nat, r: int, c: int)
    requires
        is_board(b, rows, columns),
        rows <= u32::MAX,
        columns <= u32::MAX,
        !changes(b, r, c),
    ensures
        not_named(next_diff(b), r, c),
{
    lemma_next_diff_is_generation_diff(b, rows, columns);
    let d = next_diff(b);
    assert forall|i: int| 0 <= i < d.len() implies !((#[trigger] d[i]).0 == r && d[i].1 == c) by {
        assert(changes(b, d[i].0 as int, d[i].1 as int));
    }
}

/// Two generation diffs of one board agree on their first `n` entries.
proof fn lemma_common_prefix(b: Board, d1: Seq<Change>, d2: Seq<Change>, n: int)
    requires
        is_generation_diff(b, d1),
        is_generation_diff(b, d2),
        0 <= n <= d1.len(),
    ensures
        n <= d2.len(),
        forall|k: int| 0 <= k < n ==> d1[k] == d2[k],
    decreases n,
{
    if n > 0 {
        lemma_common_prefix(b, d1, d2, n - 1);
        let i = n - 1;
        let e = d1[i];
        assert(changes(b, e.0 as int, e.1 as int));
        assert(e == change_at(b, e.0 as int, e.1 as int));
        let j = choose|j: int|
            0 <= j < d2.len() && #[trigger] d2[j] == change_at(b, e.0 as int, e.1 as int);
        if j < i {
            assert(d1[j] == d2[j]);
            assert(precedes(d1[j], d1[i]));
        } else if j > i {
            let f = d2[i];
            assert(precedes(d2[i], d2[j]));
            assert(changes(b, f.0 as int, f.1 as int));
            assert(f == change_at(b, f.0 as int, f.1 as int));
            let k = choose|k: int|
                0 <= k < d1.len() && #[trigger] d1[k] == change_at(b, f.0 as int, f.1 as int);
            if k < i {
                assert(d1[k] == d2[k]);
                assert(precedes(d2[k], d2[i]));
            } else if k > i {
                assert(precedes(d1[i], d1[k]));
            }
        }
    }
}

} // verus!
