//! The derived predicates over a grid: well-formedness, `filled`, `legal`
//! and `solved`, together with the executable checks for them.
//!
//! All predicates are built solely from the group enumeration of
//! [`crate::geometry`]: a grid is legal when no group holds the same value
//! twice among its present cells, and solved when every group is completely
//! filled and duplicate free.

use vstd::prelude::*;

use crate::geometry::Cell;
use crate::geometry::Variant;
use crate::geometry::cell_count;
use crate::geometry::cell_group_ids;
use crate::geometry::col_of;
use crate::geometry::group_index;
use crate::geometry::group_indices;
use crate::geometry::lemma_cell_group_ids_in_range;
use crate::geometry::lemma_cell_groups_contain_cell;
use crate::geometry::lemma_group_indices_in_range;
use crate::geometry::num_groups;
use crate::geometry::num_values;
use crate::geometry::row_of;
use crate::geometry::width;
use crate::geometry::width_of;

verus! {

/// A cell either is empty or holds a value in the variant's legal range.
pub open spec fn cell_ok(v: Variant, c: Cell) -> bool {
    c matches Some(d) ==> 1 <= d as int && d as int <= num_values(v)
}

/// A well-formed grid has exactly `cell_count(v)` cells, each empty or in
/// the variant's legal range.
pub open spec fn grid_wf(v: Variant, cells: Seq<Cell>) -> bool {
    &&& cells.len() == cell_count(v)
    &&& forall|j: int| 0 <= j < cells.len() ==> cell_ok(v, #[trigger] cells[j])
}

/// The values of group `g`, in the group's own index order.
pub open spec fn group_values(v: Variant, cells: Seq<Cell>, g: int) -> Seq<Cell> {
    group_indices(v, g).map_values(|j: int| cells[j])
}

/// No two present cells of the sequence hold the same value.
pub open spec fn seq_legal(s: Seq<Cell>) -> bool {
    forall|a: int, b: int| 0 <= a < b < s.len() ==> !(#[trigger] s[a] is Some && #[trigger] s[b] == s[a])
}

/// Every cell of the sequence is present.
pub open spec fn seq_complete(s: Seq<Cell>) -> bool {
    forall|k: int| 0 <= k < s.len() ==> #[trigger] s[k] is Some
}

/// Every cell of the grid holds a value.
pub open spec fn grid_filled(cells: Seq<Cell>) -> bool {
    forall|j: int| 0 <= j < cells.len() ==> #[trigger] cells[j] is Some
}

/// Within every group, no value occurs more than once among the present
/// cells; absent cells never conflict.
pub open spec fn grid_legal(v: Variant, cells: Seq<Cell>) -> bool {
    forall|g: int| 0 <= g < num_groups(v) ==> seq_legal(#[trigger] group_values(v, cells, g))
}

/// Every group is completely filled and contains no duplicate value.
pub open spec fn grid_solved(v: Variant, cells: Seq<Cell>) -> bool {
    forall|g: int|
        0 <= g < num_groups(v) ==> seq_complete(#[trigger] group_values(v, cells, g))
            && seq_legal(group_values(v, cells, g))
}

/// A solved grid is filled and legal (the converse need not hold, since a
/// partly empty grid can be legal).
pub proof fn lemma_solved_implies_filled_and_legal(v: Variant, cells: Seq<Cell>)
    requires
        grid_wf(v, cells),
        grid_solved(v, cells),
    ensures
        grid_filled(cells),
        grid_legal(v, cells),
{
    assert forall|j: int| 0 <= j < cells.len() implies #[trigger] cells[j] is Some by {
        let w = width(v);
        let r = row_of(v, j);
        let c = col_of(v, j);
        vstd::arithmetic::div_mod::lemma_fundamental_div_mod(j, w);
        match v {
            Variant::Mini => {
                assert(width(v) == 6);
                assert(0 <= j < 36);
                assert(r == j / 6);
                assert(0 <= r < 6);
                assert(0 <= c < 6);
                assert(group_indices(v, r)[c] == r * 6 + c);
                assert(group_indices(v, r)[c] == j);
            },
            _ => {
                assert(width(v) == 9);
                assert(0 <= j < 81);
                assert(r == j / 9);
                assert(0 <= r < 9);
                assert(0 <= c < 9);
                assert(group_indices(v, r)[c] == r * 9 + c);
                assert(group_indices(v, r)[c] == j);
            },
        }
        assert(group_values(v, cells, r)[c] == cells[j]);
        assert(seq_complete(group_values(v, cells, r)));
    }
}

/// A grid that is filled and legal is solved: every group is then complete
/// and free of duplicates.
pub proof fn lemma_filled_and_legal_implies_solved(v: Variant, cells: Seq<Cell>)
    requires
        grid_wf(v, cells),
        grid_filled(cells),
        grid_legal(v, cells),
    ensures
        grid_solved(v, cells),
{
    assert forall|g: int| 0 <= g < num_groups(v) implies seq_complete(
        #[trigger] group_values(v, cells, g),
    ) && seq_legal(group_values(v, cells, g)) by {
        lemma_group_indices_in_range(v, g);
        assert forall|k: int| 0 <= k < group_values(v, cells, g).len() implies #[trigger] group_values(
            v,
            cells,
            g,
        )[k] is Some by {
            assert(group_values(v, cells, g)[k] == cells[group_indices(v, g)[k]]);
        }
    }
}

/// Whether two cells hold the same content.
fn cell_eq(a: Cell, b: Cell) -> (r: bool)
    ensures
        r == (a == b),
{
    match (a, b) {
        (None, None) => true,
        (Some(x), Some(y)) => x == y,
        _ => false,
    }
}

/// Whether some present value occurs twice in the sequence.
pub fn group_conflict(g: &Vec<Cell>) -> (r: bool)
    ensures
        r == !seq_legal(g@),
{
    let n = g.len();
    let mut a: usize = 0;
    while a < n
        invariant
            0 <= a <= n,
            n == g@.len(),
            forall|x: int, y: int|
                0 <= x < y < n && x < a ==> !(#[trigger] g@[x] is Some && #[trigger] g@[y]
                    == g@[x]),
        decreases n - a,
    {
        if g[a].is_some() {
            let mut b: usize = a + 1;
            while b < n
                invariant
                    0 <= a < b <= n,
                    n == g@.len(),
                    g@[a as int] is Some,
                    forall|y: int| a < y < b ==> !(#[trigger] g@[y] == g@[a as int]),
                decreases n - b,
            {
                if cell_eq(g[b], g[a]) {
                    return true;
                }
                b += 1;
            }
        }
        a += 1;
    }
    false
}

/// Whether every cell of the sequence is present.
pub fn group_complete(g: &Vec<Cell>) -> (r: bool)
    ensures
        r == seq_complete(g@),
{
    let n = g.len();
    let mut k: usize = 0;
    while k < n
        invariant
            0 <= k <= n,
            n == g@.len(),
            forall|t: int| 0 <= t < k ==> #[trigger] g@[t] is Some,
        decreases n - k,
    {
        if g[k].is_none() {
            return false;
        }
        k += 1;
    }
    true
}

/// The cells of group `g`, gathered in the group's index order.
pub fn group_cells(v: Variant, cells: &[Cell], g: usize) -> (r: Vec<Cell>)
    requires
        cells@.len() == cell_count(v),
        0 <= (g as int) < num_groups(v),
    ensures
        r@ == group_values(v, cells@, g as int),
{
    proof {
        lemma_group_indices_in_range(v, g as int);
    }
    let w = width_of(v);
    let mut out: Vec<Cell> = Vec::new();
    let mut k: usize = 0;
    while k < w
        invariant
            0 <= k <= w,
            w as int == width(v),
            cells@.len() == cell_count(v),
            0 <= (g as int) < num_groups(v),
            group_indices(v, g as int).len() == width(v),
            forall|t: int|
                0 <= t < group_indices(v, g as int).len() ==> 0 <= #[trigger] group_indices(
                    v,
                    g as int,
                )[t] < cell_count(v),
            out@.len() == k as int,
            forall|t: int|
                0 <= t < k ==> #[trigger] out@[t] == cells@[group_indices(v, g as int)[t]],
        decreases w - k,
    {
        let idx = group_index(v, g, k);
        out.push(cells[idx]);
        k += 1;
    }
    proof {
        assert(out@ =~= group_values(v, cells@, g as int));
    }
    out
}

/// The groups with ids `lo` to `lo + n`, in id order.
pub fn groups_slice(v: Variant, cells: &[Cell], lo: usize, n: usize) -> (r: Vec<Vec<Cell>>)
    requires
        cells@.len() == cell_count(v),
        (lo + n) as int <= num_groups(v),
    ensures
        r@.len() == n as int,
        forall|t: int|
            0 <= t < n ==> #[trigger] r@[t]@ == group_values(v, cells@, lo + t),
{
    let mut out: Vec<Vec<Cell>> = Vec::new();
    let mut k: usize = 0;
    while k < n
        invariant
            0 <= k <= n,
            cells@.len() == cell_count(v),
            (lo + n) as int <= num_groups(v),
            out@.len() == k as int,
            forall|t: int|
                0 <= t < k ==> #[trigger] out@[t]@ == group_values(v, cells@, lo + t),
        decreases n - k,
    {
        out.push(group_cells(v, cells, lo + k));
        k += 1;
    }
    out
}

/// The groups containing cell `i`, in the fixed order: row, column, box,
/// and (hyper only) the extra region.
pub fn cell_groups(v: Variant, cells: &[Cell], i: usize) -> (r: Vec<Vec<Cell>>)
    requires
        cells@.len() == cell_count(v),
        0 <= (i as int) < cell_count(v),
    ensures
        r@.len() == cell_group_ids(v, i as int).len(),
        forall|t: int|
            0 <= t < r@.len() ==> #[trigger] r@[t]@ == group_values(
                v,
                cells@,
                cell_group_ids(v, i as int)[t],
            ),
{
    proof {
        lemma_cell_group_ids_in_range(v, i as int);
    }
    let w = width_of(v);
    let row = i / w;
    let col = i % w;
    proof {
        assert(row as int == row_of(v, i as int));
        assert(col as int == col_of(v, i as int));
    }
    let b: usize = match v {
        Variant::Mini => (row / 3) * 3 + col / 2,
        _ => (row / 3) * 3 + col / 3,
    };
    proof {
        assert(b as int == crate::geometry::box_id_of(v, i as int));
        assert(cell_group_ids(v, i as int)[0] == row as int);
        assert(cell_group_ids(v, i as int)[1] == w + col);
        assert(cell_group_ids(v, i as int)[2] == 2 * w + b);
    }
    let mut out: Vec<Vec<Cell>> = Vec::new();
    out.push(group_cells(v, cells, row));
    out.push(group_cells(v, cells, w + col));
    out.push(group_cells(v, cells, 2 * w + b));
    let extra: Option<usize> = if matches!(v, Variant::Hyper) {
        if (1 <= row && row <= 3 || 5 <= row && row <= 7) && (1 <= col && col <= 3 || 5 <= col
            && col <= 7) {
            Some(9 + (if row >= 5 { 2 } else { 0 }) + (if col >= 5 { 1 } else { 0 }))
        } else {
            None
        }
    } else {
        None
    };
    match extra {
        Some(e) => {
            proof {
                assert(crate::geometry::extra_box_id_of(v, i as int) == Some(e as int));
                assert(cell_group_ids(v, i as int)[3] == 2 * w + e);
            }
            out.push(group_cells(v, cells, 2 * w + e));
        },
        None => {
            proof {
                assert(crate::geometry::extra_box_id_of(v, i as int) is None);
            }
        },
    }
    out
}

/// Check that no group of the grid holds a duplicate present value.
pub fn cells_legal(v: Variant, cells: &[Cell]) -> (r: bool)
    requires
        cells@.len() == cell_count(v),
    ensures
        r == grid_legal(v, cells@),
{
    let n = crate::geometry::num_groups_of(v);
    let mut g: usize = 0;
    while g < n
        invariant
            0 <= g <= n,
            n as int == num_groups(v),
            cells@.len() == cell_count(v),
            forall|t: int| 0 <= t < g ==> seq_legal(#[trigger] group_values(v, cells@, t)),
        decreases n - g,
    {
        let gc = group_cells(v, cells, g);
        if group_conflict(&gc) {
            return false;
        }
        g += 1;
    }
    true
}

/// `h` agrees with `g` on every cell before `pos` and on every present
/// cell: it is a candidate completion of `g` from `pos` on.
pub open spec fn extends_from(g: Seq<Cell>, h: Seq<Cell>, pos: int) -> bool {
    &&& h.len() == g.len()
    &&& forall|j: int| 0 <= j < g.len() && (j < pos || g[j] is Some) ==> #[trigger] h[j] == g[j]
}

/// Some well-formed solved grid completes `g` from `pos` on.
pub open spec fn solvable_from(v: Variant, g: Seq<Cell>, pos: int) -> bool {
    exists|h: Seq<Cell>|
        #[trigger] grid_solved(v, h) && grid_wf(v, h) && extends_from(g, h, pos)
}

/// An illegal grid has no solved extension: a conflicting pair of present
/// cells persists in every grid that keeps the present cells.
pub proof fn lemma_illegal_has_no_solution(v: Variant, g: Seq<Cell>, h: Seq<Cell>)
    requires
        grid_wf(v, g),
        !grid_legal(v, g),
        h.len() == g.len(),
        forall|j: int| 0 <= j < g.len() && g[j] is Some ==> #[trigger] h[j] == g[j],
    ensures
        !grid_solved(v, h),
{
    let gid = choose|gid: int| 0 <= gid < num_groups(v) && !seq_legal(group_values(v, g, gid));
    lemma_group_indices_in_range(v, gid);
    let gv = group_values(v, g, gid);
    let (a, b) = choose|a: int, b: int|
        0 <= a < b < gv.len() && #[trigger] gv[a] is Some && #[trigger] gv[b] == gv[a];
    let ia = group_indices(v, gid)[a];
    let ib = group_indices(v, gid)[b];
    assert(g[ia] == gv[a] && g[ib] == gv[b]);
    assert(h[ia] == g[ia] && h[ib] == g[ib]);
    assert(group_values(v, h, gid)[a] == h[ia]);
    assert(group_values(v, h, gid)[b] == h[ib]);
    if grid_solved(v, h) {
        assert(seq_legal(group_values(v, h, gid)));
        assert(false);
    }
}

/// A cell cannot take a value already present in one of its own groups: no
/// solved grid that keeps the present cells assigns it there.
pub proof fn lemma_group_value_blocks_cell(
    v: Variant,
    g: Seq<Cell>,
    h: Seq<Cell>,
    pos: int,
    t: int,
    k: int,
)
    requires
        grid_wf(v, g),
        0 <= pos < cell_count(v),
        g[pos] is None,
        0 <= t < cell_group_ids(v, pos).len(),
        0 <= k < width(v),
        group_values(v, g, cell_group_ids(v, pos)[t])[k] is Some,
        h.len() == g.len(),
        forall|j: int| 0 <= j < g.len() && g[j] is Some ==> #[trigger] h[j] == g[j],
        h[pos] == group_values(v, g, cell_group_ids(v, pos)[t])[k],
    ensures
        !grid_solved(v, h),
{
    let gid = cell_group_ids(v, pos)[t];
    lemma_cell_group_ids_in_range(v, pos);
    lemma_group_indices_in_range(v, gid);
    lemma_cell_groups_contain_cell(v, pos);
    let idx = group_indices(v, gid)[k];
    assert(g[idx] == group_values(v, g, gid)[k]);
    assert(h[idx] == g[idx]);
    assert(group_indices(v, gid).contains(pos));
    let m = choose|m: int|
        0 <= m < group_indices(v, gid).len() && #[trigger] group_indices(v, gid)[m] == pos;
    assert(group_values(v, h, gid)[m] == h[pos]);
    assert(idx != pos);
    assert(m != k);
    if grid_solved(v, h) {
        assert(seq_legal(group_values(v, h, gid)));
        let lo = if m < k { m } else { k };
        let hi = if m < k { k } else { m };
        assert(group_values(v, h, gid)[lo] is Some && group_values(v, h, gid)[hi] == group_values(
            v,
            h,
            gid,
        )[lo]);
        assert(false);
    }
}

/// The rank of a cell value when ordering candidate grids: an empty cell
/// ranks below every value.
pub open spec fn cell_rank(c: Cell) -> int {
    match c {
        None => 0,
        Some(d) => 1 + d as int,
    }
}

/// `a` comes no later than `b` in lexicographic order from position `from`
/// on: either they agree everywhere from `from`, or `a` holds the smaller
/// value at the first position where they differ.
pub open spec fn lex_leq_from(a: Seq<Cell>, b: Seq<Cell>, from: int) -> bool {
    ||| forall|q: int| from <= q < a.len() ==> #[trigger] a[q] == b[q]
    ||| exists|p: int|
        from <= p < a.len() && cell_rank(#[trigger] a[p]) < cell_rank(b[p]) && (forall|q: int|
            from <= q < p ==> #[trigger] a[q] == b[q])
}

/// Lexicographic order is antisymmetric: two grids of one length that each
/// come no later than the other are the same grid.
pub proof fn lemma_lex_antisymmetric(a: Seq<Cell>, b: Seq<Cell>)
    requires
        a.len() == b.len(),
        lex_leq_from(a, b, 0),
        lex_leq_from(b, a, 0),
    ensures
        a == b,
{
    if !(forall|q: int| 0 <= q < a.len() ==> #[trigger] a[q] == b[q]) {
        let p1 = choose|p: int|
            0 <= p < a.len() && cell_rank(#[trigger] a[p]) < cell_rank(b[p]) && (forall|q: int|
                0 <= q < p ==> #[trigger] a[q] == b[q]);
        assert(!(forall|q: int| 0 <= q < b.len() ==> #[trigger] b[q] == a[q]));
        let p2 = choose|p: int|
            0 <= p < b.len() && cell_rank(#[trigger] b[p]) < cell_rank(a[p]) && (forall|q: int|
                0 <= q < p ==> #[trigger] b[q] == a[q]);
        if p1 < p2 {
            assert(b[p1] == a[p1]);
        } else if p2 < p1 {
            assert(a[p2] == b[p2]);
        }
        assert(false);
    }
    assert(a =~= b);
}

/// The solver's output is determined by its input: the least completion of
/// a grid is unique, so any two runs that both return the least completion
/// return the identical grid.
pub proof fn lemma_least_completion_unique(v: Variant, g: Seq<Cell>, h1: Seq<Cell>, h2: Seq<Cell>)
    requires
        grid_wf(v, h1),
        grid_solved(v, h1),
        extends_from(g, h1, 0),
        grid_wf(v, h2),
        grid_solved(v, h2),
        extends_from(g, h2, 0),
        forall|h: Seq<Cell>|
            grid_wf(v, h) && #[trigger] grid_solved(v, h) && extends_from(g, h, 0)
                ==> lex_leq_from(h1, h, 0),
        forall|h: Seq<Cell>|
            grid_wf(v, h) && #[trigger] grid_solved(v, h) && extends_from(g, h, 0)
                ==> lex_leq_from(h2, h, 0),
    ensures
        h1 == h2,
{
    assert(lex_leq_from(h1, h2, 0));
    assert(lex_leq_from(h2, h1, 0));
    lemma_lex_antisymmetric(h1, h2);
}

/// One agreeing position extends a lexicographic comparison leftwards.
pub proof fn lemma_lex_extend(a: Seq<Cell>, b: Seq<Cell>, from: int)
    requires
        0 <= from,
        lex_leq_from(a, b, from + 1),
        from < a.len() ==> a[from] == b[from],
    ensures
        lex_leq_from(a, b, from),
{
    if forall|q: int| from + 1 <= q < a.len() ==> #[trigger] a[q] == b[q] {
        assert(forall|q: int| from <= q < a.len() ==> #[trigger] a[q] == b[q]);
    } else {
        let p = choose|p: int|
            from + 1 <= p < a.len() && cell_rank(#[trigger] a[p]) < cell_rank(b[p]) && (forall|
                q: int,
            |
                from + 1 <= q < p ==> #[trigger] a[q] == b[q]);
        assert(forall|q: int| from <= q < p ==> #[trigger] a[q] == b[q]);
        assert(from <= p < a.len() && cell_rank(a[p]) < cell_rank(b[p]));
        assert(lex_leq_from(a, b, from));
    }
}

} // verus!
