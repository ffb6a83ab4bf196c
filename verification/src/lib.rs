//! Conway's Game of Life on a fixed-size rectangular grid.
//!
//! A grid is a matrix of cells, each alive or dead. One generation evaluates
//! every interior cell against its eight neighbors and yields a sparse diff
//! of the cells that change; writing the diff into the grid completes the
//! step. The one-cell border is never evaluated.
//!
//! - `rules`: the board model and the transition rule.
//! - `diff`: the diff of a generation and what writing a diff means.
//! - `grid`: the grid itself and its operations.
//! - `frame`: the per-frame functions for input and drawing.
//! - `laws`: what holds of every board and every generation.

pub mod diff;
pub mod frame;
pub mod grid;
pub mod laws;
pub mod rules;
