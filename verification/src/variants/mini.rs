use vstd::prelude::*;

use crate::geometry::Cell;
use crate::geometry::Variant;
use crate::geometry::cell_count;
use crate::geometry::num_boxes;
use crate::geometry::valid_values;
use crate::geometry::width;
use crate::predicates::cell_groups;
use crate::predicates::grid_wf;
use crate::predicates::group_cells;
use crate::predicates::group_values;
use crate::predicates::groups_slice;
use crate::sudoku::Sudoku;
use crate::text::ParseError;
use crate::text::cells_of_text;
use crate::text::parse_cells;
use crate::text::render_cells;
use crate::text::text_of_cells;

verus! {

/// Mini game of Sudoku.
///
/// This variation is played on a 6x6 grid with the values 1 to 6, where
/// the six subgrids are 2 cells wide and 3 cells tall.
#[derive(Clone, Debug)]
pub struct MiniSudoku {
    cells: Vec<Cell>,
}

impl MiniSudoku {
    /// An empty mini grid.
    pub fn new() -> (s: Self)
        ensures
            s.variant() == Variant::Mini,
            grid_wf(s.variant(), s.cells_seq()),
            forall|j: int| 0 <= j < s.cells_seq().len() ==> #[trigger] s.cells_seq()[j] is None,
    {
        let cells: Vec<Cell> = vec![None; 36];
        Self { cells }
    }

    /// Parse a grid from text: digits `1` to `6` are filled cells, a space
    /// is an empty cell, and any other character is ignored; exactly 36
    /// significant characters must remain.
    pub fn from_str(s: &str) -> (r: Result<Self, ParseError>)
        ensures
            r matches Ok(g) ==> g.variant() == Variant::Mini && g.cells_seq() == cells_of_text(
                Variant::Mini,
                s@,
            ) && grid_wf(g.variant(), g.cells_seq()),
            r is Err ==> r == Err::<Self, ParseError>(ParseError::InvalidLength),
            (r is Ok) <==> cells_of_text(Variant::Mini, s@).len() == cell_count(Variant::Mini),
    {
        match parse_cells(Variant::Mini, s) {
            Ok(cells) => Ok(Self { cells }),
            Err(e) => Err(e),
        }
    }

    /// The grid as text: one character per cell, row by row.
    pub fn to_text(&self) -> (r: String)
        ensures
            r@ == text_of_cells(self.cells_seq()),
    {
        render_cells(&self.cells)
    }

    /// The cells of row `i`, left to right.
    pub fn row(&self, i: usize) -> (r: Vec<Cell>)
        requires
            grid_wf(self.variant(), self.cells_seq()),
            (i as int) < width(Variant::Mini),
        ensures
            r@ == group_values(Variant::Mini, self.cells_seq(), i as int),
    {
        group_cells(Variant::Mini, self.cells.as_slice(), i)
    }

    /// The cells of column `i`, top to bottom.
    pub fn column(&self, i: usize) -> (r: Vec<Cell>)
        requires
            grid_wf(self.variant(), self.cells_seq()),
            (i as int) < width(Variant::Mini),
        ensures
            r@ == group_values(Variant::Mini, self.cells_seq(), width(Variant::Mini) + i),
    {
        group_cells(Variant::Mini, self.cells.as_slice(), 6 + i)
    }

    /// The cells of subgrid `i`, row-major within the subgrid.
    pub fn grid(&self, i: usize) -> (r: Vec<Cell>)
        requires
            grid_wf(self.variant(), self.cells_seq()),
            (i as int) < num_boxes(Variant::Mini),
        ensures
            r@ == group_values(Variant::Mini, self.cells_seq(), 2 * width(Variant::Mini) + i),
    {
        group_cells(Variant::Mini, self.cells.as_slice(), 12 + i)
    }
}

impl Sudoku for MiniSudoku {
    closed spec fn variant(&self) -> Variant {
        Variant::Mini
    }

    closed spec fn cells_seq(&self) -> Seq<Cell> {
        self.cells@
    }

    fn variant_value(&self) -> Variant {
        Variant::Mini
    }

    fn get(&self, i: usize) -> Cell {
        self.cells[i]
    }

    fn set(&mut self, i: usize, num: Cell) {
        self.cells.set(i, num);
    }

    fn cells(&self) -> &[Cell] {
        self.cells.as_slice()
    }

    fn cells_mut(&mut self) -> &mut Vec<Cell> {
        &mut self.cells
    }

    fn cell_values(&self) -> Vec<u8> {
        valid_values(Variant::Mini)
    }

    fn rows(&self) -> Vec<Vec<Cell>> {
        groups_slice(Variant::Mini, self.cells.as_slice(), 0, 6)
    }

    fn columns(&self) -> Vec<Vec<Cell>> {
        groups_slice(Variant::Mini, self.cells.as_slice(), 6, 6)
    }

    fn grids(&self) -> Vec<Vec<Cell>> {
        groups_slice(Variant::Mini, self.cells.as_slice(), 12, 6)
    }

    fn groups_of(&self, i: usize) -> Vec<Vec<Cell>> {
        cell_groups(Variant::Mini, self.cells.as_slice(), i)
    }
}

} // verus!
