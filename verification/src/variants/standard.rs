use vstd::prelude::*;

use crate::geometry::Cell;
use crate::geometry::Variant;
use crate::geometry::cell_count;
use crate::geometry::num_boxes;
use crate::geometry::valid_values;
use crate::geometry::width;
use crate::predicates::cell_groups;
use crate::predicates::grid_wf;
use crate::predicates::group_cells;
use crate::predicates::group_values;
use crate::predicates::groups_slice;
use crate::sudoku::Sudoku;
use crate::text::ParseError;
use crate::text::cells_of_text;
use crate::text::parse_cells;
use crate::text::render_cells;
use crate::text::text_of_cells;

verus! {

/// Standard game of Sudoku.
///
/// This variation of the game is the standard one played. It is on a 9x9
/// grid where the value of the cells have to be unique on the row and
/// column, as well as in one of the nine 3x3 subgrids.
#[derive(Clone, Debug)]
pub struct StandardSudoku {
    cells: Vec<Cell>,
}

impl StandardSudoku {
    /// An empty standard grid.
    pub fn new() -> (s: Self)
        ensures
            s.variant() == Variant::Standard,
            grid_wf(s.variant(), s.cells_seq()),
            forall|j: int| 0 <= j < s.cells_seq().len() ==> #[trigger] s.cells_seq()[j] is None,
    {
        let cells: Vec<Cell> = vec![None; 81];
        Self { cells }
    }

    /// Parse a grid from text: digits `1` to `9` are filled cells, a space
    /// is an empty cell, and any other character is ignored; exactly 81
    /// significant characters must remain.
    pub fn from_str(s: &str) -> (r: Result<Self, ParseError>)
        ensures
            r matches Ok(g) ==> g.variant() == Variant::Standard && g.cells_seq()
                == cells_of_text(Variant::Standard, s@) && grid_wf(g.variant(), g.cells_seq()),
            r is Err ==> r == Err::<Self, ParseError>(ParseError::InvalidLength),
            (r is Ok) <==> cells_of_text(Variant::Standard, s@).len() == cell_count(
                Variant::Standard,
            ),
    {
        match parse_cells(Variant::Standard, s) {
            Ok(cells) => Ok(Self { cells }),
            Err(e) => Err(e),
        }
    }

    /// The grid as text: one character per cell, row by row.
    pub fn to_text(&self) -> (r: String)
        ensures
            r@ == text_of_cells(self.cells_seq()),
    {
        render_cells(&self.cells)
    }

    /// The cells of subgrid `i`, row-major within the subgrid.
    pub fn grid(&self, i: usize) -> (r: Vec<Cell>)
        requires
            grid_wf(self.variant(), self.cells_seq()),
            (i as int) < num_boxes(Variant::Standard),
        ensures
            r@ == group_values(
                Variant::Standard,
                self.cells_seq(),
                2 * width(Variant::Standard) + i,
            ),
    {
        group_cells(Variant::Standard, self.cells.as_slice(), 18 + i)
    }
}

impl Default for StandardSudoku {
    fn default() -> (s: Self)
        ensures
            s.variant() == Variant::Standard,
            grid_wf(s.variant(), s.cells_seq()),
            forall|j: int| 0 <= j < s.cells_seq().len() ==> #[trigger] s.cells_seq()[j] is None,
    {
        Self::new()
    }
}

impl Sudoku for StandardSudoku {
    closed spec fn variant(&self) -> Variant {
        Variant::Standard
    }

    closed spec fn cells_seq(&self) -> Seq<Cell> {
        self.cells@
    }

    fn variant_value(&self) -> Variant {
        Variant::Standard
    }

    fn get(&self, i: usize) -> Cell {
        self.cells[i]
    }

    fn set(&mut self, i: usize, num: Cell) {
        self.cells.set(i, num);
    }

    fn cells(&self) -> &[Cell] {
        self.cells.as_slice()
    }

    fn cells_mut(&mut self) -> &mut Vec<Cell> {
        &mut self.cells
    }

    fn cell_values(&self) -> Vec<u8> {
        valid_values(Variant::Standard)
    }

    fn rows(&self) -> Vec<Vec<Cell>> {
        groups_slice(Variant::Standard, self.cells.as_slice(), 0, 9)
    }

    fn columns(&self) -> Vec<Vec<Cell>> {
        groups_slice(Variant::Standard, self.cells.as_slice(), 9, 9)
    }

    fn grids(&self) -> Vec<Vec<Cell>> {
        groups_slice(Variant::Standard, self.cells.as_slice(), 18, 9)
    }

    fn groups_of(&self, i: usize) -> Vec<Vec<Cell>> {
        cell_groups(Variant::Standard, self.cells.as_slice(), i)
    }
}

} // verus!
