//! The first cut of the game: a bare grid-access contract and the standard
//! 9x9 grid implementing it.
//!
//! The richer [`crate::sudoku::Sudoku`] contract supersedes this one; it is
//! kept for callers that only need direct cell access.

use vstd::prelude::*;

use crate::geometry::Variant;
use crate::geometry::cell_count;
use crate::predicates::grid_wf;
use crate::text::cells_of_text;
use crate::text::parse_cells;
use crate::text::render_cells;
use crate::text::text_of_cells;
use crate::text::ParseError;

pub use crate::geometry::Cell;

verus! {

/// A game of suduko: direct access to the cells of a grid.
pub trait Suduko: Sized {
    /// The current cells of the grid, in row-major order.
    spec fn cells_seq(&self) -> Seq<Cell>;

    /// Get the number on a cell on the grid.
    fn get(&self, i: usize) -> (c: Cell)
        requires
            (i as int) < self.cells_seq().len(),
        ensures
            c == self.cells_seq()[i as int],
    ;

    /// Set the number on a cell on the grid, or clear it.
    ///
    /// The index must be within the grid and a present value must lie in
    /// the game's range of 1 to 9: an out-of-range value is a programming
    /// error, never silently stored.
    fn set(&mut self, i: usize, num: Cell)
        requires
            (i as int) < old(self).cells_seq().len(),
            num matches Some(d) ==> 1 <= d && d <= 9,
        ensures
            final(self).cells_seq() == old(self).cells_seq().update(i as int, num),
    ;

    /// Get all the cells on the grid.
    fn cells(&self) -> (r: &[Cell])
        ensures
            r@ == self.cells_seq(),
    ;

    /// Get a mutable reference to all the cells on the grid.
    fn cells_mut(&mut self) -> (r: &mut Vec<Cell>)
        ensures
            (*r)@ == old(self).cells_seq(),
            final(self).cells_seq() == (*final(r))@,
    ;
}

/// Standard game of Suduko.
///
/// This variation of the game is the standard one played. It is on a 9x9
/// grid where the value of the cells have to be unique on the row and
/// column, as well as in one of the nine 3x3 subgrids.
#[derive(Clone, Debug)]
pub struct Standard {
    cells: Vec<Cell>,
}

impl Standard {
    /// An empty standard grid of 81 cells.
    pub fn new() -> (s: Self)
        ensures
            s.cells_seq().len() == 81,
            forall|j: int| 0 <= j < s.cells_seq().len() ==> #[trigger] s.cells_seq()[j] is None,
    {
        let cells: Vec<Cell> = vec![None; 81];
        Self { cells }
    }

    /// Parse a grid from text: digits `1` to `9` are filled cells, a space
    /// is an empty cell, and any other character is ignored; exactly 81
    /// significant characters must remain.
    pub fn from_str(s: &str) -> (r: Result<Self, ParseError>)
        ensures
            r matches Ok(g) ==> g.cells_seq() == cells_of_text(Variant::Standard, s@)
                && grid_wf(Variant::Standard, g.cells_seq()),
            r is Err ==> r == Err::<Self, ParseError>(ParseError::InvalidLength),
            (r is Ok) <==> cells_of_text(Variant::Standard, s@).len() == cell_count(
                Variant::Standard,
            ),
    {
        match parse_cells(Variant::Standard, s) {
            Ok(cells) => Ok(Self { cells }),
            Err(e) => Err(e),
        }
    }

    /// The grid as text: one character per cell, row by row.
    pub fn to_text(&self) -> (r: String)
        ensures
            r@ == text_of_cells(self.cells_seq()),
    {
        render_cells(&self.cells)
    }
}

impl Default for Standard {
    fn default() -> (s: Self)
        ensures
            s.cells_seq().len() == 81,
            forall|j: int| 0 <= j < s.cells_seq().len() ==> #[trigger] s.cells_seq()[j] is None,
    {
        Self::new()
    }
}

impl Suduko for Standard {
    closed spec fn cells_seq(&self) -> Seq<Cell> {
        self.cells@
    }

    fn get(&self, i: usize) -> Cell {
        self.cells[i]
    }

    fn set(&mut self, i: usize, num: Cell) {
        self.cells.set(i, num);
    }

    fn cells(&self) -> &[Cell] {
        self.cells.as_slice()
    }

    fn cells_mut(&mut self) -> &mut Vec<Cell> {
        &mut self.cells
    }
}

} // verus!
