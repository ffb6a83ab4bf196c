//! The two per-frame functions around a grid: taking input in, and handing
//! out what is to be drawn. Both work on plain values; reading the devices
//! and drawing are left to the caller.

use vstd::prelude::*;
use crate::grid::{Cell, Grid};
use crate::rules::{in_bounds, next_generation, set_cell, Board, LifeState};

verus! {

/// What the input devices report for one frame.
#[derive(Clone, Copy, PartialEq, Eq, Debug, Structural)]
pub struct InputState {
    /// The left mouse button is held.
    pub left_button: bool,
    /// The pointer's distance from the left edge, in pixels.
    pub pointer_x: u32,
    /// The pointer's distance from the top edge, in pixels.
    pub pointer_y: u32,
    /// The space key is held.
    pub space: bool,
}

/// The fill color of a drawn cell.
#[derive(Clone, Copy, PartialEq, Eq, Debug, Structural)]
pub enum Shade {
    Black,
    White,
}

/// A filled square to draw: its top-left corner, the length of its side, and
/// its color.
#[derive(Clone, Copy, PartialEq, Eq, Debug, Structural)]
pub struct Tile {
    pub x: u64,
    pub y: u64,
    pub size: u32,
    pub shade: Shade,
}

/// The row and column of the cell of `b` under the pixel `(x, y)`, found by
/// integer division by the cell size; none if the pixel lies outside the
/// board or the cell size is zero.
pub open spec fn pointed_cell(b: Board, cell_size: int, x: int, y: int) -> Option<(int, int)> {
    if cell_size > 0 && in_bounds(b, y / cell_size, x / cell_size) {
        Some((y / cell_size, x / cell_size))
    } else {
        None
    }
}

/// The board after the pointer part of a frame's input: with the left button
/// held over a cell, that cell is alive; otherwise nothing changes.
pub open spec fn after_click(b: Board, cell_size: int, input: InputState) -> Board {
    if input.left_button {
        match pointed_cell(b, cell_size, input.pointer_x as int, input.pointer_y as int) {
            Some((r, c)) => set_cell(b, r, c, LifeState::Alive),
            None => b,
        }
    } else {
        b
    }
}

/// The board after a whole frame's input: first the pointer, then, with the
/// space key held, exactly one generation.
pub open spec fn after_input(b: Board, cell_size: int, input: InputState) -> Board {
    let clicked = after_click(b, cell_size, input);
    if input.space {
        next_generation(clicked)
    } else {
        clicked
    }
}

/// Alive cells are drawn black, dead cells white.
pub open spec fn shade_of(state: LifeState) -> Shade {
    match state {
        LifeState::Alive => Shade::Black,
        LifeState::Dead => Shade::White,
    }
}

/// The square drawn for the cell at `(r, c)` of `b`.
pub open spec fn tile_at(b: Board, cell_size: int, r: int, c: int) -> Tile {
    Tile {
        x: (c * cell_size) as u64,
        y: (r * cell_size) as u64,
        size: cell_size as u32,
        shade: shade_of(b[r][c]),
    }
}

/// The place of the cell at `(r, c)` in a row-major listing of a grid with
/// `columns` columns.
pub open spec fn flat_index(columns: int, r: int, c: int) -> int {
    r * columns + c
}

/// Converts a pointer position to the cell under it, as `(row, column)`.
pub fn cell_at(grid: &Grid, x: u32, y: u32) -> (cell: Option<(u32, u32)>)
    ensures
        match cell {
            Some((row, col)) => {
                &&& row < grid.rows()
                &&& col < grid.columns()
                &&& pointed_cell(grid@, grid.cell_size() as int, x as int, y as int) == Some(
                    (row as int, col as int),
                )
            },
            None => pointed_cell(grid@, grid.cell_size() as int, x as int, y as int) is None,
        },
{
    proof {
        grid.lemma_rectangular();
    }
    let size = grid.cell_size();
    let rows = grid.rows();
    let columns = grid.columns();
    if size == 0 {
        return None;
    }
    let col: u32 = x / size;
    let row: u32 = y / size;
    if row < rows && col < columns {
        Some((row, col))
    } else {
        None
    }
}

/// Takes one frame's input into the grid: activates the cell under the
/// pointer while the left button is held, then advances one generation while
/// the space key is held.
pub fn sample_input(grid: &mut Grid, input: InputState)
    ensures
        final(grid).rows() == old(grid).rows(),
        final(grid).columns() == old(grid).columns(),
        final(grid).cell_size() == old(grid).cell_size(),
        final(grid).is_rectangular(),
        final(grid)@ == after_input(old(grid)@, old(grid).cell_size() as int, input),
{
    if input.left_button {
        match cell_at(grid, input.pointer_x, input.pointer_y) {
            Some((row, col)) => {
                grid.activate(row, col);
            },
            None => {},
        }
    }
    if input.space {
        grid.step();
    }
    proof {
        grid.lemma_rectangular();
    }
}

/// The square to draw for one cell: at the cell's position, of the given
/// size, black for an alive cell and white for a dead one.
pub fn tile(cell: &Cell, size: u32) -> (square: Tile)
    ensures
        square == (Tile { x: cell.x, y: cell.y, size: size, shade: shade_of(cell.state) }),
{
    let shade = match cell.state {
        LifeState::Alive => Shade::Black,
        LifeState::Dead => Shade::White,
    };
    Tile { x: cell.x, y: cell.y, size, shade }
}

/// In a row-major listing, the cells of rows before `r_end` come before
/// place `r_end * columns`.
proof fn lemma_flat_index(columns: int, r: int, c: int, r_end: int)
    requires
        0 <= r < r_end,
        0 <= c < columns,
    ensures
        0 <= flat_index(columns, r, c) < r_end * columns,
{
    assert(0 <= r * columns && r * columns + columns <= r_end * columns) by (nonlinear_arith)
        requires
            0 <= r < r_end,
            0 < columns,
    ;
}

/// Lists the squares to draw for a frame, one per cell, row by row from the
/// top and from left to right within a row.
pub fn render(grid: &Grid) -> (tiles: Vec<Tile>)
    ensures
        tiles@.len() == grid.rows() * grid.columns(),
        forall|r: int, c: int|
            0 <= r < grid.rows() && 0 <= c < grid.columns() ==> {
                &&& 0 <= #[trigger] flat_index(grid.columns() as int, r, c) < tiles@.len()
                &&& tiles@[flat_index(grid.columns() as int, r, c)] == tile_at(
                    grid@,
                    grid.cell_size() as int,
                    r,
                    c,
                )
            },
{
    proof {
        grid.lemma_rectangular();
    }
    let rows = grid.rows();
    let columns = grid.columns();
    let size = grid.cell_size();
    let mut tiles: Vec<Tile> = Vec::new();
    let mut row: u32 = 0;
    while row < rows
        invariant
            rows == grid.rows(),
            columns == grid.columns(),
            size == grid.cell_size(),
            row <= rows,
            tiles@.len() == row * columns,
            forall|r: int, c: int|
                0 <= r < row && 0 <= c < columns ==> tiles@[#[trigger] flat_index(
                    columns as int,
                    r,
                    c,
                )] == tile_at(grid@, size as int, r, c),
        decreases rows - row,
    {
        let mut col: u32 = 0;
        while col < columns
            invariant
                rows == grid.rows(),
                columns == grid.columns(),
                size == grid.cell_size(),
                row < rows,
                col <= columns,
                tiles@.len() == row * columns + col,
                forall|r: int, c: int|
                    0 <= r < row && 0 <= c < columns ==> tiles@[#[trigger] flat_index(
                        columns as int,
                        r,
                        c,
                    )] == tile_at(grid@, size as int, r, c),
                forall|c: int|
                    0 <= c < col ==> tiles@[#[trigger] flat_index(columns as int, row as int, c)]
                        == tile_at(grid@, size as int, row as int, c),
            decreases columns - col,
        {
            let ghost before = tiles@;
            tiles.push(tile(grid.cell(row, col), size));
            proof {
                assert forall|r: int, c: int| 0 <= r < row && 0 <= c < columns implies tiles@[
                #[trigger] flat_index(columns as int, r, c)] == tile_at(
                    grid@,
                    size as int,
                    r,
                    c,
                ) by {
                    lemma_flat_index(columns as int, r, c, row as int);
                    assert(tiles@[flat_index(columns as int, r, c)] == before[flat_index(
                        columns as int,
                        r,
                        c,
                    )]);
                }
            }
            col += 1;
        }
        assert((row + 1) * columns == row * columns + columns) by (nonlinear_arith);
        row += 1;
    }
    proof {
        assert forall|r: int, c: int| 0 <= r < rows && 0 <= c < columns implies 0
            <= #[trigger] flat_index(columns as int, r, c) < tiles@.len() by {
            lemma_flat_index(columns as int, r, c, rows as int);
        }
    }
    tiles
}

} // verus!
