use vstd::prelude::*;

use crate::geometry::Cell;
use crate::geometry::Variant;
use crate::geometry::cell_count;
use crate::geometry::num_boxes;
use crate::geometry::valid_values;
use crate::geometry::width;
use crate::predicates::cell_groups;
use crate::predicates::grid_wf;
use crate::predicates::group_cells;
use crate::predicates::group_values;
use crate::predicates::groups_slice;
use crate::sudoku::Sudoku;
use crate::text::ParseError;
use crate::text::cells_of_text;
use crate::text::parse_cells;
use crate::text::render_cells;
use crate::text::text_of_cells;

verus! {

/// Hyper game of Sudoku.
///
/// This variation is played like standard Sudoku on a 9x9 grid, but four
/// extra 3x3 regions, offset one cell in from the corners, further
/// constrain which digits can be placed.
#[derive(Clone, Debug)]
pub struct HyperSudoku {
    cells: Vec<Cell>,
}

impl HyperSudoku {
    /// An empty hyper grid.
    pub fn new() -> (s: Self)
        ensures
            s.variant() == Variant::Hyper,
            grid_wf(s.variant(), s.cells_seq()),
            forall|j: int| 0 <= j < s.cells_seq().len() ==> #[trigger] s.cells_seq()[j] is None,
    {
        let cells: Vec<Cell> = vec![None; 81];
        Self { cells }
    }

    /// Parse a grid from text: digits `1` to `9` are filled cells, a space
    /// is an empty cell, and any other character is ignored; exactly 81
    /// significant characters must remain.
    pub fn from_str(s: &str) -> (r: Result<Self, ParseError>)
        ensures
            r matches Ok(g) ==> g.variant() == Variant::Hyper && g.cells_seq() == cells_of_text(
                Variant::Hyper,
                s@,
            ) && grid_wf(g.variant(), g.cells_seq()),
            r is Err ==> r == Err::<Self, ParseError>(ParseError::InvalidLength),
            (r is Ok) <==> cells_of_text(Variant::Hyper, s@).len() == cell_count(Variant::Hyper),
    {
        match parse_cells(Variant::Hyper, s) {
            Ok(cells) => Ok(Self { cells }),
            Err(e) => Err(e),
        }
    }

    /// The grid as text: one character per cell, row by row.
    pub fn to_text(&self) -> (r: String)
        ensures
            r@ == text_of_cells(self.cells_seq()),
    {
        render_cells(&self.cells)
    }

    /// The cells of subgrid `i`, row-major within the subgrid: subgrids 0
    /// to 8 are the ordinary boxes, 9 to 12 the extra regions.
    pub fn grid(&self, i: usize) -> (r: Vec<Cell>)
        requires
            grid_wf(self.variant(), self.cells_seq()),
            (i as int) < num_boxes(Variant::Hyper),
        ensures
            r@ == group_values(Variant::Hyper, self.cells_seq(), 2 * width(Variant::Hyper) + i),
    {
        group_cells(Variant::Hyper, self.cells.as_slice(), 18 + i)
    }
}

impl Default for HyperSudoku {
    fn default() -> (s: Self)
        ensures
            s.variant() == Variant::Hyper,
            grid_wf(s.variant(), s.cells_seq()),
            forall|j: int| 0 <= j < s.cells_seq().len() ==> #[trigger] s.cells_seq()[j] is None,
    {
        Self::new()
    }
}

impl Sudoku for HyperSudoku {
    closed spec fn variant(&self) -> Variant {
        Variant::Hyper
    }

    closed spec fn cells_seq(&self) -> Seq<Cell> {
        self.cells@
    }

    fn variant_value(&self) -> Variant {
        Variant::Hyper
    }

    fn get(&self, i: usize) -> Cell {
        self.cells[i]
    }

    fn set(&mut self, i: usize, num: Cell) {
        self.cells.set(i, num);
    }

    fn cells(&self) -> &[Cell] {
        self.cells.as_slice()
    }

    fn cells_mut(&mut self) -> &mut Vec<Cell> {
        &mut self.cells
    }

    fn cell_values(&self) -> Vec<u8> {
        valid_values(Variant::Hyper)
    }

    fn rows(&self) -> Vec<Vec<Cell>> {
        groups_slice(Variant::Hyper, self.cells.as_slice(), 0, 9)
    }

    fn columns(&self) -> Vec<Vec<Cell>> {
        groups_slice(Variant::Hyper, self.cells.as_slice(), 9, 9)
    }

    fn grids(&self) -> Vec<Vec<Cell>> {
        groups_slice(Variant::Hyper, self.cells.as_slice(), 18, 13)
    }

    fn groups_of(&self, i: usize) -> Vec<Vec<Cell>> {
        cell_groups(Variant::Hyper, self.cells.as_slice(), i)
    }
}

} // verus!
