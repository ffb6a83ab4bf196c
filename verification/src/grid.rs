//! The grid: a fixed-dimension matrix of cells and the operations on it.

use vstd::prelude::*;
use crate::diff::{
    apply_diff, changes_above, is_generation_diff, lemma_diff_yields_next_generation,
    lemma_next_diff_is_generation_diff, next_diff, row_changes, Change,
};
use crate::rules::{
    alive_neighbors, dead_board, is_board, next_generation, set_cell, Board, LifeState,
};

verus! {

/// One cell of a grid: where it is drawn, in pixels from the top-left corner,
/// and its state.
#[derive(Clone, Copy, PartialEq, Eq, Debug, Structural)]
pub struct Cell {
    pub x: u64,
    pub y: u64,
    pub state: LifeState,
}

/// A matrix of cells whose dimensions are fixed at construction. The position
/// of every cell follows from its row, its column and the cell size.
pub struct Grid {
    cells: Vec<Vec<Cell>>,
    rows: u32,
    columns: u32,
    cell_size: u32,
}

/// The number of rows of the default grid.
pub const ROW_COUNT: u32 = 24;

/// The number of columns of the default grid.
pub const COLUMN_COUNT: u32 = 32;

/// The cell size of the default grid, in pixels.
pub const CELL_STEP: u32 = 25;

/// Sets the state of one cell and leaves every position and every other
/// state as it was.
fn write_state(cells: &mut Vec<Vec<Cell>>, row: usize, col: usize, state: LifeState)
    requires
        row < old(cells)@.len(),
        col < old(cells)@[row as int]@.len(),
    ensures
        final(cells)@.len() == old(cells)@.len(),
        forall|r: int|
            0 <= r < old(cells)@.len() ==> (#[trigger] final(cells)@[r])@.len() == old(
                cells,
            )@[r]@.len(),
        forall|r: int, c: int|
            0 <= r < old(cells)@.len() && 0 <= c < old(cells)@[r]@.len() ==> {
                &&& (#[trigger] final(cells)@[r]@[c]).x == old(cells)@[r]@[c].x
                &&& final(cells)@[r]@[c].y == old(cells)@[r]@[c].y
                &&& final(cells)@[r]@[c].state == if r == row && c == col {
                    state
                } else {
                    old(cells)@[r]@[c].state
                }
            },
    no_unwind
{
    cells[row][col].state = state;
}

/// Moving one step along the lattice adds the step to the coordinate, and no
/// coordinate of a grid leaves the range of `u64`.
proof fn lemma_lattice_step(index: int, step: int)
    requires
        0 <= index < u32::MAX,
        0 <= step <= u32::MAX,
    ensures
        (index + 1) * step == index * step + step,
        0 <= index * step,
        (index + 1) * step <= u64::MAX,
{
    assert((index + 1) * step == index * step + step) by (nonlinear_arith);
    assert(0 <= index * step) by (nonlinear_arith)
        requires
            0 <= index,
            0 <= step,
    ;
    assert((index + 1) * step <= 0xffff_ffff * 0xffff_ffff) by (nonlinear_arith)
        requires
            0 <= index + 1 <= 0xffff_ffff,
            0 <= step <= 0xffff_ffff,
    ;
}

impl Grid {
    /// There are `rows` rows of `columns` cells, and every cell sits at its
    /// place on the lattice.
    #[verifier::type_invariant]
    spec fn inv(self) -> bool {
        &&& self.cells@.len() == self.rows
        &&& forall|r: int| 0 <= r < self.rows ==> (#[trigger] self.cells@[r])@.len() == self.columns
        &&& forall|r: int, c: int|
            0 <= r < self.rows && 0 <= c < self.columns ==> {
                &&& (#[trigger] self.cells@[r]@[c]).x == c * self.cell_size
                &&& self.cells@[r]@[c].y == r * self.cell_size
            }
    }

    /// The states of the cells, row by row.
    pub closed spec fn view(&self) -> Board {
        Seq::new(
            self.rows as nat,
            |r: int| Seq::new(self.columns as nat, |c: int| self.cells@[r]@[c].state),
        )
    }

    /// The number of rows.
    pub closed spec fn spec_rows(&self) -> u32 {
        self.rows
    }

    /// The number of columns.
    pub closed spec fn spec_columns(&self) -> u32 {
        self.columns
    }

    /// The side of a cell and the spacing of the lattice, in pixels.
    pub closed spec fn spec_cell_size(&self) -> u32 {
        self.cell_size
    }

    /// The view has `rows()` rows of `columns()` cells each.
    pub open spec fn is_rectangular(&self) -> bool {
        is_board(self@, self.spec_rows() as nat, self.spec_columns() as nat)
    }

    /// The view of every grid has the grid's dimensions.
    pub proof fn lemma_rectangular(&self)
        ensures
            self.is_rectangular(),
    {
    }

    /// Builds a grid of `rows` by `columns` cells, all dead, laid out on a
    /// regular lattice with spacing `cell_size`.
    pub fn construct(rows: u32, columns: u32, cell_size: u32) -> (grid: Grid)
        ensures
            grid.rows() == rows,
            grid.columns() == columns,
            grid.cell_size() == cell_size,
            grid@ == dead_board(rows as nat, columns as nat),
    {
        let mut cells: Vec<Vec<Cell>> = Vec::with_capacity(rows as usize);
        let mut y: u64 = 0;
        let mut r: u32 = 0;
        while r < rows
            invariant
                r <= rows,
                y == r * cell_size,
                cells@.len() == r,
                forall|i: int| 0 <= i < r ==> (#[trigger] cells@[i])@.len() == columns,
                forall|i: int, j: int|
                    0 <= i < r && 0 <= j < columns ==> {
                        &&& (#[trigger] cells@[i]@[j]).x == j * cell_size
                        &&& cells@[i]@[j].y == i * cell_size
                        &&& cells@[i]@[j].state == LifeState::Dead
                    },
            decreases rows - r,
        {
            let mut x: u64 = 0;
            let mut row: Vec<Cell> = Vec::with_capacity(columns as usize);
            let mut c: u32 = 0;
            while c < columns
                invariant
                    c <= columns,
                    x == c * cell_size,
                    y == r * cell_size,
                    row@.len() == c,
                    forall|j: int|
                        0 <= j < c ==> {
                            &&& (#[trigger] row@[j]).x == j * cell_size
                            &&& row@[j].y == r * cell_size
                            &&& row@[j].state == LifeState::Dead
                        },
                decreases columns - c,
            {
                row.push(Cell { x: x, y: y, state: LifeState::Dead });
                proof {
                    lemma_lattice_step(c as int, cell_size as int);
                }
                x += cell_size as u64;
                c += 1;
            }
            cells.push(row);
            proof {
                lemma_lattice_step(r as int, cell_size as int);
            }
            y += cell_size as u64;
            r += 1;
        }
        let grid = Grid { cells, rows, columns, cell_size };
        assert(grid@ =~~= dead_board(rows as nat, columns as nat));
        grid
    }

    /// Builds the default grid: `ROW_COUNT` by `COLUMN_COUNT` dead cells of
    /// size `CELL_STEP`.
    pub fn new() -> (grid: Grid)
        ensures
            grid.rows() == ROW_COUNT,
            grid.columns() == COLUMN_COUNT,
            grid.cell_size() == CELL_STEP,
            grid@ == dead_board(ROW_COUNT as nat, COLUMN_COUNT as nat),
    {
        Grid::construct(ROW_COUNT, COLUMN_COUNT, CELL_STEP)
    }

    /// Sets the cell at `(row, col)` to alive. No other cell changes.
    pub fn activate(&mut self, row: u32, col: u32)
        requires
            row < old(self).rows(),
            col < old(self).columns(),
        ensures
            final(self).rows() == old(self).rows(),
            final(self).columns() == old(self).columns(),
            final(self).cell_size() == old(self).cell_size(),
            final(self).is_rectangular(),
            final(self)@ == set_cell(old(self)@, row as int, col as int, LifeState::Alive),
    {
        proof {
            use_type_invariant(&*self);
        }
        write_state(&mut self.cells, row as usize, col as usize, LifeState::Alive);
        assert(self@ =~~= set_cell(old(self)@, row as int, col as int, LifeState::Alive));
    }

    /// Counts the alive cells among the eight neighbors of an interior cell.
    pub fn alive_neighbors(&self, row: u32, col: u32) -> (count: u8)
        requires
            0 < row < self.rows() - 1,
            0 < col < self.columns() - 1,
        ensures
            count == alive_neighbors(self@, row as int, col as int),
    {
        proof {
            use_type_invariant(self);
        }
        let r: usize = row as usize;
        let c: usize = col as usize;
        let mut alive_count: u8 = 0;
        if self.cells[r - 1][c - 1].state == LifeState::Alive {
            alive_count += 1;
        }
        if self.cells[r][c - 1].state == LifeState::Alive {
            alive_count += 1;
        }
        if self.cells[r + 1][c - 1].state == LifeState::Alive {
            alive_count += 1;
        }
        if self.cells[r - 1][c].state == LifeState::Alive {
            alive_count += 1;
        }
        if self.cells[r + 1][c].state == LifeState::Alive {
            alive_count += 1;
        }
        if self.cells[r - 1][c + 1].state == LifeState::Alive {
            alive_count += 1;
        }
        if self.cells[r][c + 1].state == LifeState::Alive {
            alive_count += 1;
        }
        if self.cells[r + 1][c + 1].state == LifeState::Alive {
            alive_count += 1;
        }
        alive_count
    }

    /// Evaluates every interior cell against the grid as it stands and returns
    /// the cells whose state changes, each with its new state. The grid itself
    /// is only read.
    pub fn compute_next_generation(&self) -> (diff: Vec<Change>)
        ensures
            diff@ == next_diff(self@),
            is_generation_diff(self@, diff@),
            forall|i: int|
                0 <= i < diff@.len() ==> 0 < (#[trigger] diff@[i]).0 < self.rows() - 1 && 0
                    < diff@[i].1 < self.columns() - 1,
    {
        proof {
            use_type_invariant(self);
            lemma_next_diff_is_generation_diff(self@, self.rows as nat, self.columns as nat);
        }
        let mut cells_to_update: Vec<Change> = Vec::new();
        let mut row: u32 = 1;
        while row + 1 < self.rows
            invariant
                self.inv(),
                1 <= row,
                row == 1 || row <= self.rows - 1,
                cells_to_update@ == changes_above(self@, row as int),
            decreases self.rows - row,
        {
            let mut col: u32 = 1;
            while col + 1 < self.columns
                invariant
                    self.inv(),
                    1 <= row < self.rows - 1,
                    1 <= col,
                    col == 1 || col <= self.columns - 1,
                    cells_to_update@ == changes_above(self@, row as int) + row_changes(
                        self@,
                        row as int,
                        col as int,
                    ),
                decreases self.columns - col,
            {
                let alive_count = self.alive_neighbors(row, col);
                let state = self.cells[row as usize][col as usize].state;
                if state == LifeState::Alive && (alive_count < 2 || alive_count > 3) {
                    cells_to_update.push((row, col, LifeState::Dead));
                } else if state == LifeState::Dead && alive_count == 3 {
                    cells_to_update.push((row, col, LifeState::Alive));
                }
                assert(cells_to_update@ =~= changes_above(self@, row as int) + row_changes(
                    self@,
                    row as int,
                    col as int + 1,
                ));
                col += 1;
            }
            row += 1;
        }
        cells_to_update
    }

    /// Writes every entry of `diff` into the grid, from the first to the last.
    pub fn apply(&mut self, diff: &Vec<Change>)
        requires
            forall|i: int|
                0 <= i < diff@.len() ==> (#[trigger] diff@[i]).0 < old(self).rows() && diff@[i].1
                    < old(self).columns(),
        ensures
            final(self).rows() == old(self).rows(),
            final(self).columns() == old(self).columns(),
            final(self).cell_size() == old(self).cell_size(),
            final(self).is_rectangular(),
            final(self)@ == apply_diff(old(self)@, diff@),
    {
        proof {
            use_type_invariant(&*self);
        }
        let mut i: usize = 0;
        while i < diff.len()
            invariant
                self.inv(),
                self.rows == old(self).rows,
                self.columns == old(self).columns,
                self.cell_size == old(self).cell_size,
                i <= diff@.len(),
                forall|k: int|
                    0 <= k < diff@.len() ==> (#[trigger] diff@[k]).0 < self.rows && diff@[k].1
                        < self.columns,
                self@ == apply_diff(old(self)@, diff@.take(i as int)),
            decreases diff@.len() - i,
        {
            let (row, col, state) = diff[i];
            let ghost before = self@;
            write_state(&mut self.cells, row as usize, col as usize, state);
            proof {
                let done = diff@.take(i as int + 1);
                assert(done.drop_last() =~= diff@.take(i as int));
                assert(done.last() == diff@[i as int]);
                assert(self@ =~~= set_cell(before, row as int, col as int, state));
            }
            i += 1;
        }
        assert(diff@.take(i as int) =~= diff@);
    }

    /// Advances the grid by one generation: computes the diff against the
    /// grid as it stands, then writes it.
    pub fn step(&mut self)
        ensures
            final(self).rows() == old(self).rows(),
            final(self).columns() == old(self).columns(),
            final(self).cell_size() == old(self).cell_size(),
            final(self).is_rectangular(),
            final(self)@ == next_generation(old(self)@),
    {
        let diff = self.compute_next_generation();
        proof {
            lemma_diff_yields_next_generation(
                self@,
                diff@,
                self.rows as nat,
                self.columns as nat,
            );
        }
        self.apply(&diff);
    }

    /// The number of rows.
    #[verifier::when_used_as_spec(spec_rows)]
    pub fn rows(&self) -> (rows: u32)
        ensures
            rows == self.spec_rows(),
    {
        self.rows
    }

    /// The number of columns.
    #[verifier::when_used_as_spec(spec_columns)]
    pub fn columns(&self) -> (columns: u32)
        ensures
            columns == self.spec_columns(),
    {
        self.columns
    }

    /// The side of a cell and the spacing of the lattice, in pixels.
    #[verifier::when_used_as_spec(spec_cell_size)]
    pub fn cell_size(&self) -> (cell_size: u32)
        ensures
            cell_size == self.spec_cell_size(),
    {
        self.cell_size
    }

    /// The cell at `(row, col)`: its state, and its place on the lattice.
    pub fn cell(&self, row: u32, col: u32) -> (cell: &Cell)
        requires
            row < self.rows(),
            col < self.columns(),
        ensures
            cell.state == self@[row as int][col as int],
            cell.x == col * self.cell_size(),
            cell.y == row * self.cell_size(),
    {
        proof {
            use_type_invariant(self);
        }
        &self.cells[row as usize][col as usize]
    }
}

} // verus!
