//! A library for playing and solving the game of Sudoku.
//!
//! Sudoku is a numbers-based logic game centered around filling a square grid
//! with numbers without repeating the same number on the same row, column, or
//! sub-grid. The game is started with a partially filled grid, which the
//! player must complete without ever modifying the initially revealed digits.
//!
//! The game also has some variants, like mini-sudoku where the grid is
//! smaller, or hyper-sudoku, where there are extra sub-grids on the grid which
//! further constrain which digits you can place.

pub mod geometry;
pub mod predicates;
pub mod text;
pub mod sudoku;
pub mod suduko;
pub mod variants;

pub use geometry::Cell;
pub use geometry::Variant;
pub use sudoku::Sudoku;
pub use sudoku::SolveError;
pub use text::ParseError;
pub use variants::StandardSudoku;
