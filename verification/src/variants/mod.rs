//! Implementations of different variants of Sudoku.

mod hyper;
mod mini;
mod standard;

pub use hyper::HyperSudoku;
pub use mini::MiniSudoku;
pub use standard::StandardSudoku;
