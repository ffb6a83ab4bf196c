use game_of_life::diff::Change;
use game_of_life::grid::{Cell, Grid, CELL_STEP, COLUMN_COUNT, ROW_COUNT};
use game_of_life::rules::LifeState;

fn alive_cells(grid: &Grid) -> Vec<(u32, u32)> {
    let mut cells = Vec::new();
    for row in 0..grid.rows() {
        for col in 0..grid.columns() {
            if grid.cell(row, col).state == LifeState::Alive {
                cells.push((row, col));
            }
        }
    }
    cells
}

fn grid_with(rows: u32, columns: u32, alive: &[(u32, u32)]) -> Grid {
    let mut grid = Grid::construct(rows, columns, 1);
    for &(row, col) in alive {
        grid.activate(row, col);
    }
    grid
}

#[test]
fn default_grid_has_the_fixed_dimensions() {
    assert_eq!(ROW_COUNT, 24);
    assert_eq!(COLUMN_COUNT, 32);
    assert_eq!(CELL_STEP, 25);
    let grid = Grid::new();
    assert_eq!(grid.rows(), 24);
    assert_eq!(grid.columns(), 32);
    assert_eq!(grid.cell_size(), 25);
}

#[test]
fn new_grid_is_all_dead() {
    let grid = Grid::new();
    assert_eq!(alive_cells(&grid), Vec::<(u32, u32)>::new());
    assert_eq!(grid.cell(0, 0).state, LifeState::Dead);
    assert_eq!(grid.cell(23, 31).state, LifeState::Dead);
}

#[test]
fn constructed_grid_has_the_given_dimensions() {
    let grid = Grid::construct(5, 7, 3);
    assert_eq!(grid.rows(), 5);
    assert_eq!(grid.columns(), 7);
    assert_eq!(grid.cell_size(), 3);
    assert_eq!(alive_cells(&grid), Vec::<(u32, u32)>::new());
}

#[test]
fn cells_lie_on_a_regular_lattice() {
    let grid = Grid::new();
    assert_eq!(*grid.cell(0, 0), Cell { x: 0, y: 0, state: LifeState::Dead });
    assert_eq!(*grid.cell(2, 3), Cell { x: 75, y: 50, state: LifeState::Dead });
    assert_eq!(*grid.cell(23, 31), Cell { x: 775, y: 575, state: LifeState::Dead });
    let other = Grid::construct(4, 4, 7);
    assert_eq!(other.cell(3, 1).x, 7);
    assert_eq!(other.cell(3, 1).y, 21);
}

#[test]
fn lattice_positions_do_not_overflow() {
    let grid = Grid::construct(2, 3, u32::MAX);
    assert_eq!(grid.cell(1, 2).x, 2 * (u32::MAX as u64));
    assert_eq!(grid.cell(1, 2).y, u32::MAX as u64);
}

#[test]
fn empty_grids_can_be_built() {
    let none = Grid::construct(0, 0, 25);
    assert_eq!(none.rows(), 0);
    assert_eq!(none.columns(), 0);
    assert_eq!(none.compute_next_generation(), Vec::<Change>::new());
    let no_columns = Grid::construct(4, 0, 25);
    assert_eq!(no_columns.rows(), 4);
    assert_eq!(no_columns.columns(), 0);
    assert_eq!(no_columns.compute_next_generation(), Vec::<Change>::new());
    let no_rows = Grid::construct(0, 4, 25);
    assert_eq!(no_rows.columns(), 4);
    assert_eq!(no_rows.compute_next_generation(), Vec::<Change>::new());
}

#[test]
fn activate_is_read_back_at_once() {
    let mut grid = Grid::new();
    assert_eq!(grid.cell(4, 9).state, LifeState::Dead);
    grid.activate(4, 9);
    assert_eq!(grid.cell(4, 9).state, LifeState::Alive);
    assert_eq!(alive_cells(&grid), vec![(4, 9)]);
}

#[test]
fn activate_keeps_positions_and_dimensions() {
    let mut grid = Grid::new();
    grid.activate(4, 9);
    assert_eq!(*grid.cell(4, 9), Cell { x: 225, y: 100, state: LifeState::Alive });
    assert_eq!(grid.rows(), 24);
    assert_eq!(grid.columns(), 32);
    assert_eq!(grid.cell_size(), 25);
}

#[test]
fn activate_works_on_the_border() {
    let mut grid = Grid::new();
    grid.activate(0, 0);
    grid.activate(23, 31);
    assert_eq!(alive_cells(&grid), vec![(0, 0), (23, 31)]);
}

#[test]
fn activate_twice_is_activate_once() {
    let mut grid = Grid::new();
    grid.activate(3, 3);
    grid.activate(3, 3);
    assert_eq!(alive_cells(&grid), vec![(3, 3)]);
}

#[test]
fn alive_neighbors_counts_the_eight_surrounding_cells() {
    let mut grid = Grid::new();
    assert_eq!(grid.alive_neighbors(5, 5), 0);
    grid.activate(5, 5);
    assert_eq!(grid.alive_neighbors(5, 5), 0);
    grid.activate(4, 4);
    assert_eq!(grid.alive_neighbors(5, 5), 1);
    grid.activate(4, 5);
    grid.activate(4, 6);
    grid.activate(5, 4);
    grid.activate(5, 6);
    grid.activate(6, 4);
    grid.activate(6, 5);
    assert_eq!(grid.alive_neighbors(5, 5), 7);
    grid.activate(6, 6);
    assert_eq!(grid.alive_neighbors(5, 5), 8);
    // Cells two steps away do not count.
    grid.activate(3, 5);
    grid.activate(5, 7);
    grid.activate(7, 7);
    assert_eq!(grid.alive_neighbors(5, 5), 8);
    assert_eq!(grid.alive_neighbors(4, 4), 4);
}

#[test]
fn alive_neighbors_sees_border_cells() {
    let grid = grid_with(3, 3, &[(0, 0), (0, 2), (2, 1), (1, 0)]);
    assert_eq!(grid.alive_neighbors(1, 1), 4);
}

#[test]
fn apply_writes_each_entry() {
    let mut grid = Grid::new();
    grid.activate(2, 2);
    let diff: Vec<Change> =
        vec![(1, 1, LifeState::Alive), (2, 2, LifeState::Dead), (0, 31, LifeState::Alive)];
    grid.apply(&diff);
    assert_eq!(alive_cells(&grid), vec![(0, 31), (1, 1)]);
    assert_eq!(grid.rows(), 24);
    assert_eq!(grid.columns(), 32);
    assert_eq!(*grid.cell(1, 1), Cell { x: 25, y: 25, state: LifeState::Alive });
}

#[test]
fn apply_of_an_empty_diff_changes_nothing() {
    let mut grid = grid_with(6, 6, &[(1, 1), (4, 5)]);
    grid.apply(&Vec::new());
    assert_eq!(alive_cells(&grid), vec![(1, 1), (4, 5)]);
}

#[test]
fn apply_lets_the_last_entry_for_a_cell_win() {
    let mut grid = Grid::new();
    let diff: Vec<Change> =
        vec![(3, 4, LifeState::Alive), (3, 4, LifeState::Dead), (5, 6, LifeState::Dead), (
            5,
            6,
            LifeState::Alive,
        )];
    grid.apply(&diff);
    assert_eq!(alive_cells(&grid), vec![(5, 6)]);
}

#[test]
fn apply_can_kill_a_cell() {
    let mut grid = grid_with(4, 4, &[(0, 0), (3, 3)]);
    grid.apply(&vec![(0, 0, LifeState::Dead)]);
    assert_eq!(alive_cells(&grid), vec![(3, 3)]);
}

#[test]
fn step_is_compute_then_apply() {
    let cells = [(1, 2), (2, 3), (3, 1), (3, 2), (3, 3), (10, 10), (10, 11), (10, 12)];
    let mut stepped = grid_with(24, 32, &cells);
    let mut by_hand = grid_with(24, 32, &cells);
    stepped.step();
    let diff = by_hand.compute_next_generation();
    by_hand.apply(&diff);
    assert_eq!(alive_cells(&stepped), alive_cells(&by_hand));
    assert_eq!(
        alive_cells(&stepped),
        vec![(2, 1), (2, 3), (3, 2), (3, 3), (4, 2), (9, 11), (10, 11), (11, 11)]
    );
}

#[test]
fn step_keeps_dimensions_and_positions() {
    let mut grid = Grid::construct(6, 9, 4);
    grid.activate(2, 2);
    grid.step();
    assert_eq!(grid.rows(), 6);
    assert_eq!(grid.columns(), 9);
    assert_eq!(grid.cell_size(), 4);
    assert_eq!(*grid.cell(2, 2), Cell { x: 8, y: 8, state: LifeState::Dead });
    assert_eq!(*grid.cell(5, 8), Cell { x: 32, y: 20, state: LifeState::Dead });
}
