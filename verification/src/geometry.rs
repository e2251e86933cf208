//! Grid geometry: the translation between a linear cell index and the
//! constraint groups (rows, columns, boxes, extra regions) that include it.
//!
//! All geometry is defined per [`Variant`]. A group is identified by a group
//! id: first the rows, then the columns, then the boxes (for the hyper
//! variant the four extra regions follow the nine ordinary boxes).

use vstd::prelude::*;

verus! {

/// The storage value for a cell on the Sudoku grid.
///
/// For cells with set values, this is `Some`. If the cell is empty, this
/// value is `None`.
pub type Cell = Option<u8>;

/// The shape of a Sudoku grid: its width, the range of values its cells may
/// hold, and how its boxes and extra regions tile the grid.
#[derive(Clone, Copy, Debug, PartialEq, Eq, Structural)]
pub enum Variant {
    /// The ordinary 9x9 grid with nine 3x3 boxes.
    Standard,
    /// The 6x6 grid with six boxes of 2 columns by 3 rows.
    Mini,
    /// The 9x9 grid with four extra 3x3 regions beyond the nine boxes.
    Hyper,
}

/// The width (and height) of the grid: 9 for the standard and hyper
/// variants, 6 for the mini variant.
pub open spec fn width(v: Variant) -> int {
    match v {
        Variant::Standard => 9,
        Variant::Mini => 6,
        Variant::Hyper => 9,
    }
}

/// The number of distinct values a cell may hold; values range over
/// `1..=num_values(v)`.
pub open spec fn num_values(v: Variant) -> int {
    width(v)
}

/// The total number of cells of the grid: the width squared.
pub open spec fn cell_count(v: Variant) -> int {
    match v {
        Variant::Standard => 81,
        Variant::Mini => 36,
        Variant::Hyper => 81,
    }
}

/// The width of one box: 3 for the standard and hyper variants, 2 for the
/// mini variant.
pub open spec fn box_width(v: Variant) -> int {
    match v {
        Variant::Standard => 3,
        Variant::Mini => 2,
        Variant::Hyper => 3,
    }
}

/// The height of one box.
pub open spec fn box_height(v: Variant) -> int {
    3
}

/// How many boxes stand side by side in one band of boxes: the width
/// divided by the box width.
pub open spec fn boxes_per_row(v: Variant) -> int {
    3
}

/// The number of boxes, the four extra hyper regions included.
pub open spec fn num_boxes(v: Variant) -> int {
    match v {
        Variant::Standard => 9,
        Variant::Mini => 6,
        Variant::Hyper => 13,
    }
}

/// The total number of constraint groups: all rows, then all columns, then
/// all boxes.
pub open spec fn num_groups(v: Variant) -> int {
    width(v) + width(v) + num_boxes(v)
}

/// The row of the cell with linear index `i` (row-major order).
pub open spec fn row_of(v: Variant, i: int) -> int {
    i / width(v)
}

/// The column of the cell with linear index `i` (row-major order).
pub open spec fn col_of(v: Variant, i: int) -> int {
    i % width(v)
}

/// The row of the top-left cell of box `b`.
///
/// The first `width(v)` boxes tile the grid in `boxes_per_row(v)` columns of
/// boxes; for the hyper variant, boxes 9 to 12 are the extra regions, offset
/// one cell in from the corners and straddling the ordinary box boundaries.
pub open spec fn box_origin_row(v: Variant, b: int) -> int {
    if b < width(v) {
        box_height(v) * (b / boxes_per_row(v))
    } else {
        1 + 4 * ((b - 9) / 2)
    }
}

/// The column of the top-left cell of box `b`.
pub open spec fn box_origin_col(v: Variant, b: int) -> int {
    if b < width(v) {
        box_width(v) * (b % boxes_per_row(v))
    } else {
        1 + 4 * ((b - 9) % 2)
    }
}

/// The linear indices of row `r`, left to right.
pub open spec fn row_indices(v: Variant, r: int) -> Seq<int> {
    Seq::new(width(v) as nat, |k: int| r * width(v) + k)
}

/// The linear indices of column `c`, top to bottom.
pub open spec fn col_indices(v: Variant, c: int) -> Seq<int> {
    Seq::new(width(v) as nat, |k: int| k * width(v) + c)
}

/// The linear indices of box `b`, row-major within the box.
pub open spec fn box_indices(v: Variant, b: int) -> Seq<int> {
    Seq::new((box_width(v) * box_height(v)) as nat, |k: int|
        (box_origin_row(v, b) + k / box_width(v)) * width(v)
            + box_origin_col(v, b) + k % box_width(v))
}

/// The linear indices of group `g`: rows come first, then columns, then
/// boxes.
pub open spec fn group_indices(v: Variant, g: int) -> Seq<int> {
    if g < width(v) {
        row_indices(v, g)
    } else if g < 2 * width(v) {
        col_indices(v, g - width(v))
    } else {
        box_indices(v, g - 2 * width(v))
    }
}

/// The box (among the first `width(v)` ordinary boxes) containing cell `i`.
pub open spec fn box_id_of(v: Variant, i: int) -> int {
    (row_of(v, i) / box_height(v)) * boxes_per_row(v) + col_of(v, i) / box_width(v)
}

/// The extra hyper region containing cell `i`, if any.
///
/// A cell belongs to an extra region iff its row and its column both fall in
/// one of the two bands 1 to 3 and 5 to 7; each cell belongs to at most one
/// extra region.
pub open spec fn extra_box_id_of(v: Variant, i: int) -> Option<int> {
    if v is Hyper {
        let r = row_of(v, i);
        let c = col_of(v, i);
        if (1 <= r <= 3 || 5 <= r <= 7) && (1 <= c <= 3 || 5 <= c <= 7) {
            Some(9 + (if r >= 5 { 2int } else { 0int }) + (if c >= 5 { 1int } else { 0int }))
        } else {
            None
        }
    } else {
        None
    }
}

/// The ids of the groups containing cell `i`, in the fixed enumeration
/// order: its row, its column, its box, and (hyper only) its extra region.
pub open spec fn cell_group_ids(v: Variant, i: int) -> Seq<int> {
    let base = seq![
        row_of(v, i),
        width(v) + col_of(v, i),
        2 * width(v) + box_id_of(v, i),
    ];
    match extra_box_id_of(v, i) {
        Some(e) => base.push(2 * width(v) + e),
        None => base,
    }
}

/// The width of the grid as a machine integer.
pub fn width_of(v: Variant) -> (w: usize)
    ensures
        w as int == width(v),
{
    match v {
        Variant::Standard => 9,
        Variant::Mini => 6,
        Variant::Hyper => 9,
    }
}

/// The largest value a cell may hold, as a machine integer.
pub fn num_values_of(v: Variant) -> (n: u8)
    ensures
        n as int == num_values(v),
{
    match v {
        Variant::Standard => 9,
        Variant::Mini => 6,
        Variant::Hyper => 9,
    }
}

/// The number of cells of the grid as a machine integer.
pub fn cell_count_of(v: Variant) -> (n: usize)
    ensures
        n as int == cell_count(v),
{
    match v {
        Variant::Standard => 81,
        Variant::Mini => 36,
        Variant::Hyper => 81,
    }
}

/// The number of constraint groups as a machine integer.
pub fn num_groups_of(v: Variant) -> (n: usize)
    ensures
        n as int == num_groups(v),
{
    match v {
        Variant::Standard => 27,
        Variant::Mini => 18,
        Variant::Hyper => 31,
    }
}

/// Every group has exactly `width(v)` members, and each member is a valid
/// cell index.
#[verifier::rlimit(50)]
pub proof fn lemma_group_indices_in_range(v: Variant, g: int)
    requires
        0 <= g < num_groups(v),
    ensures
        group_indices(v, g).len() == width(v),
        forall|k: int|
            0 <= k < group_indices(v, g).len() ==> 0 <= #[trigger] group_indices(v, g)[k]
                < cell_count(v),
{
    assert forall|k: int| 0 <= k < group_indices(v, g).len() implies 0 <= #[trigger] group_indices(
        v,
        g,
    )[k] < cell_count(v) by {
        match v {
            Variant::Mini => {
                if g >= 12 {
                    let b = g - 12;
                    assert(box_width(v) == 2 && box_height(v) == 3 && boxes_per_row(v) == 3);
                    assert(box_origin_row(v, b) == 3 * (b / 3));
                    assert(box_origin_col(v, b) == 2 * (b % 3));
                    assert(0 <= b < 6);
                    assert(0 <= b / 3 <= 1);
                    assert(0 <= b % 3 <= 2);
                    assert(0 <= k / 2 <= 2 && 0 <= k % 2 <= 1);
                    assert(group_indices(v, g)[k] == (3 * (b / 3) + k / 2) * 6 + 2 * (b % 3) + k
                        % 2);
                }
                assert(0 <= group_indices(v, g)[k] < 36);
            },
            _ => {
                if g >= 18 {
                    let b = g - 18;
                    assert(box_height(v) == 3 && boxes_per_row(v) == 3);
                    assert(0 <= k / 3 <= 2 && 0 <= k % 3 <= 2);
                    if b < 9 {
                        assert(box_origin_row(v, b) == 3 * (b / 3));
                        assert(box_origin_col(v, b) == 3 * (b % 3));
                        assert(0 <= b / 3 <= 2 && 0 <= b % 3 <= 2);
                        assert(group_indices(v, g)[k] == (3 * (b / 3) + k / 3) * 9 + 3 * (b % 3)
                            + k % 3);
                    } else {
                        assert(box_origin_row(v, b) == 1 + 4 * ((b - 9) / 2));
                        assert(box_origin_col(v, b) == 1 + 4 * ((b - 9) % 2));
                        assert(0 <= (b - 9) / 2 <= 1 && 0 <= (b - 9) % 2 <= 1);
                        assert(group_indices(v, g)[k] == (1 + 4 * ((b - 9) / 2) + k / 3) * 9 + 1
                            + 4 * ((b - 9) % 2) + k % 3);
                    }
                }
                assert(0 <= group_indices(v, g)[k] < 81);
            },
        }
    }
}

/// The group ids reported for a cell are themselves valid group ids.
#[verifier::rlimit(50)]
pub proof fn lemma_cell_group_ids_in_range(v: Variant, i: int)
    requires
        0 <= i < cell_count(v),
    ensures
        3 <= cell_group_ids(v, i).len() <= 4,
        forall|k: int|
            0 <= k < cell_group_ids(v, i).len() ==> 0 <= #[trigger] cell_group_ids(v, i)[k]
                < num_groups(v),
{
    match v {
        Variant::Mini => {
            assert(0 <= row_of(v, i) < 6);
            assert(0 <= col_of(v, i) < 6);
            assert(box_width(v) == 2 && box_height(v) == 3 && boxes_per_row(v) == 3);
            assert(0 <= row_of(v, i) / 3 <= 1);
            assert(0 <= col_of(v, i) / 2 <= 2);
            assert(box_id_of(v, i) == (row_of(v, i) / 3) * 3 + col_of(v, i) / 2);
            assert(0 <= box_id_of(v, i) < 6);
        },
        _ => {
            assert(box_height(v) == 3 && boxes_per_row(v) == 3);
            assert(0 <= row_of(v, i) < 9);
            assert(0 <= col_of(v, i) < 9);
            assert(0 <= row_of(v, i) / 3 <= 2);
            assert(0 <= col_of(v, i) / 3 <= 2);
            assert(box_id_of(v, i) == (row_of(v, i) / 3) * 3 + col_of(v, i) / 3);
            assert(0 <= box_id_of(v, i) < 9);
        },
    }
    assert forall|k: int| 0 <= k < cell_group_ids(v, i).len() implies 0 <= #[trigger] cell_group_ids(
        v,
        i,
    )[k] < num_groups(v) by {
        let w = width(v);
        let ids = cell_group_ids(v, i);
        if k == 0 {
            assert(ids[k] == row_of(v, i));
        } else if k == 1 {
            assert(ids[k] == w + col_of(v, i));
        } else if k == 2 {
            assert(ids[k] == 2 * w + box_id_of(v, i));
        } else {
            assert(ids[k] == 2 * w + extra_box_id_of(v, i)->0);
        }
    }
}

/// The k-th cell index of group `g`.
pub fn group_index(v: Variant, g: usize, k: usize) -> (i: usize)
    requires
        0 <= g < num_groups(v),
        0 <= (k as int) < width(v),
    ensures
        i as int == group_indices(v, g as int)[k as int],
        0 <= (i as int) < cell_count(v),
{
    proof {
        lemma_group_indices_in_range(v, g as int);
    }
    match v {
        Variant::Mini => {
            if g < 6 {
                g * 6 + k
            } else if g < 12 {
                k * 6 + (g - 6)
            } else {
                let b = g - 12;
                (3 * (b / 3) + k / 2) * 6 + 2 * (b % 3) + k % 2
            }
        },
        _ => {
            if g < 9 {
                g * 9 + k
            } else if g < 18 {
                k * 9 + (g - 9)
            } else {
                let b = g - 18;
                if b < 9 {
                    (3 * (b / 3) + k / 3) * 9 + 3 * (b % 3) + k % 3
                } else {
                    (1 + 4 * ((b - 9) / 2) + k / 3) * 9 + (1 + 4 * ((b - 9) % 2)) + k % 3
                }
            }
        },
    }
}

/// Every group reported for a cell actually contains that cell: the cell's
/// own index occurs among the indices of each group in `cell_group_ids`.
#[verifier::rlimit(50)]
pub proof fn lemma_cell_groups_contain_cell(v: Variant, i: int)
    requires
        0 <= i < cell_count(v),
    ensures
        forall|k: int|
            0 <= k < cell_group_ids(v, i).len() ==> #[trigger] group_indices(
                v,
                cell_group_ids(v, i)[k],
            ).contains(i),
{
    let w = width(v);
    let r = row_of(v, i);
    let c = col_of(v, i);
    let b = box_id_of(v, i);
    vstd::arithmetic::div_mod::lemma_fundamental_div_mod(i, w);
    assert(i == r * w + c);
    assert(0 <= r < w && 0 <= c < w);
    // the row group holds i at position c
    assert(group_indices(v, r)[c] == i);
    assert(group_indices(v, r).contains(i));
    // the column group holds i at position r
    assert(group_indices(v, w + c)[r] == i);
    assert(group_indices(v, w + c).contains(i));
    // the box group holds i at position (r - origin row) * 3 + (c - origin col)
    match v {
        Variant::Mini => {
            assert(box_width(v) == 2 && box_height(v) == 3 && boxes_per_row(v) == 3);
            assert(b == (r / 3) * 3 + c / 2);
            vstd::arithmetic::div_mod::lemma_fundamental_div_mod_converse(b, 3, r / 3, c / 2);
            assert(box_origin_row(v, b) == 3 * (r / 3));
            assert(box_origin_col(v, b) == 2 * (b % 3));
            let dr = r - 3 * (r / 3);
            let dc = c - 2 * (c / 2);
            assert(0 <= dr < 3 && 0 <= dc < 2);
            let k = dr * 2 + dc;
            vstd::arithmetic::div_mod::lemma_fundamental_div_mod_converse(k, 2, dr, dc);
            assert(box_indices(v, b)[k] == i);
            assert(group_indices(v, 2 * w + b)[k] == i);
            assert(group_indices(v, 2 * w + b).contains(i));
        },
        _ => {
            assert(box_height(v) == 3 && boxes_per_row(v) == 3);
            assert(b == (r / 3) * 3 + c / 3);
            vstd::arithmetic::div_mod::lemma_fundamental_div_mod_converse(b, 3, r / 3, c / 3);
            assert(box_origin_row(v, b) == 3 * (r / 3));
            assert(box_origin_col(v, b) == 3 * (b % 3));
            let dr = r - 3 * (r / 3);
            let dc = c - 3 * (c / 3);
            assert(0 <= dr < 3 && 0 <= dc < 3);
            let k = dr * 3 + dc;
            vstd::arithmetic::div_mod::lemma_fundamental_div_mod_converse(k, 3, dr, dc);
            assert(box_indices(v, b)[k] == i);
            assert(group_indices(v, 2 * w + b)[k] == i);
            assert(group_indices(v, 2 * w + b).contains(i));
        },
    }
    // the extra region, where there is one, holds i as well
    match extra_box_id_of(v, i) {
        Some(e) => {
            let orow = if r >= 5 { 5int } else { 1int };
            let ocol = if c >= 5 { 5int } else { 1int };
            assert(9 <= e < 13);
            assert(box_origin_row(v, e) == orow);
            assert(box_origin_col(v, e) == ocol);
            let dr = r - orow;
            let dc = c - ocol;
            assert(0 <= dr < 3 && 0 <= dc < 3);
            let k = dr * 3 + dc;
            vstd::arithmetic::div_mod::lemma_fundamental_div_mod_converse(k, 3, dr, dc);
            assert(box_indices(v, e)[k] == i);
            assert(group_indices(v, 2 * w + e)[k] == i);
            assert(group_indices(v, 2 * w + e).contains(i));
        },
        None => {},
    }
    assert forall|k: int| 0 <= k < cell_group_ids(v, i).len() implies #[trigger] group_indices(
        v,
        cell_group_ids(v, i)[k],
    ).contains(i) by {
        let ids = cell_group_ids(v, i);
        if k == 0 {
            assert(ids[k] == r);
        } else if k == 1 {
            assert(ids[k] == w + c);
        } else if k == 2 {
            assert(ids[k] == 2 * w + b);
        } else {
            assert(ids[k] == 2 * w + extra_box_id_of(v, i)->0);
        }
    }
}

/// The valid cell values `1..=num_values(v)`, in increasing order.
pub fn valid_values(v: Variant) -> (r: Vec<u8>)
    ensures
        r@.len() == num_values(v),
        forall|k: int| 0 <= k < r@.len() ==> #[trigger] r@[k] as int == k + 1,
{
    let n = num_values_of(v);
    let mut out: Vec<u8> = Vec::new();
    let mut d: u8 = 1;
    while d <= n
        invariant
            1 <= d as int <= n as int + 1,
            n as int == num_values(v),
            out@.len() == d as int - 1,
            forall|k: int| 0 <= k < out@.len() ==> #[trigger] out@[k] as int == k + 1,
        decreases n + 1 - d,
    {
        out.push(d);
        d += 1;
    }
    out
}

} // verus!
