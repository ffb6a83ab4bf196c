//! The transition rule of the Game of Life, stated over a mathematical board.
//!
//! A board is a sequence of rows of cell states. The functions below are
//! ghost code: they say which cells are evaluated, how neighbors are counted
//! and what a cell becomes in the next generation.

use vstd::prelude::*;

verus! {

/// The state of one cell.
#[derive(Clone, Copy, PartialEq, Eq, Debug, Structural)]
pub enum LifeState {
    Alive,
    Dead,
}

/// The model of a grid: its rows from top to bottom, each row the states of
/// its cells from left to right.
pub type Board = Seq<Seq<LifeState>>;

/// `b` has `rows` rows of `columns` cells each.
pub open spec fn is_board(b: Board, rows: nat, columns: nat) -> bool {
    &&& b.len() == rows
    &&& forall|r: int| 0 <= r < rows ==> (#[trigger] b[r]).len() == columns
}

/// The board of the given dimensions on which every cell is dead.
pub open spec fn dead_board(rows: nat, columns: nat) -> Board {
    Seq::new(rows, |r: int| Seq::new(columns, |c: int| LifeState::Dead))
}

/// `(r, c)` names a cell of `b`.
pub open spec fn in_bounds(b: Board, r: int, c: int) -> bool {
    0 <= r < b.len() && 0 <= c < b[r].len()
}

/// `(r, c)` names a cell of `b` that lies on neither the outermost rows nor
/// the outermost columns. Only these cells are ever evaluated by the rule.
pub open spec fn is_interior(b: Board, r: int, c: int) -> bool {
    0 < r < b.len() - 1 && 0 < c < b[r].len() - 1
}

/// `(r, c)` names a cell of `b` and that cell is alive. A position outside
/// the board is not alive.
pub open spec fn is_alive(b: Board, r: int, c: int) -> bool {
    in_bounds(b, r, c) && b[r][c] == LifeState::Alive
}

/// One if the cell at `(r, c)` is alive, zero otherwise.
pub open spec fn population(b: Board, r: int, c: int) -> nat {
    if is_alive(b, r, c) {
        1
    } else {
        0
    }
}

/// The number of alive cells among the eight cells surrounding `(r, c)`.
pub open spec fn alive_neighbors(b: Board, r: int, c: int) -> nat {
    population(b, r - 1, c - 1) + population(b, r, c - 1) + population(b, r + 1, c - 1)
        + population(b, r - 1, c) + population(b, r + 1, c) + population(b, r - 1, c + 1)
        + population(b, r, c + 1) + population(b, r + 1, c + 1)
}

/// The standard rule: an alive cell with fewer than two or more than three
/// alive neighbors dies, a dead cell with exactly three alive neighbors comes
/// alive, and every other cell keeps its state.
pub open spec fn next_state(current: LifeState, neighbors: nat) -> LifeState {
    match current {
        LifeState::Alive => if neighbors < 2 || neighbors > 3 {
            LifeState::Dead
        } else {
            LifeState::Alive
        },
        LifeState::Dead => if neighbors == 3 {
            LifeState::Alive
        } else {
            LifeState::Dead
        },
    }
}

/// The state of the cell at `(r, c)` one generation after `b`. Interior cells
/// follow the rule; the one-cell border is never evaluated and keeps its state.
pub open spec fn successor(b: Board, r: int, c: int) -> LifeState {
    if is_interior(b, r, c) {
        next_state(b[r][c], alive_neighbors(b, r, c))
    } else {
        b[r][c]
    }
}

/// The cell at `(r, c)` is evaluated and the rule gives it another state.
pub open spec fn changes(b: Board, r: int, c: int) -> bool {
    is_interior(b, r, c) && successor(b, r, c) != b[r][c]
}

/// The board one generation after `b`: every cell evaluated against `b` itself.
pub open spec fn next_generation(b: Board) -> Board {
    Seq::new(b.len(), |r: int| Seq::new(b[r].len(), |c: int| successor(b, r, c)))
}

/// The board `b` with the cell at `(r, c)` set to `state`.
pub open spec fn set_cell(b: Board, r: int, c: int, state: LifeState) -> Board {
    b.update(r, b[r].update(c, state))
}

} // verus!
