//! The game of Sudoku: the capability contract every grid variant
//! satisfies, the derived checks built on it, and the backtracking solver.
//!
//! The solver is written once, against the [`Sudoku`] contract alone; each
//! variant only supplies its geometry through the contract's methods.

use vstd::prelude::*;

pub use crate::geometry::Cell;
use crate::geometry::Variant;
use crate::geometry::cell_count;
use crate::geometry::cell_group_ids;
use crate::geometry::num_boxes;
use crate::geometry::num_groups;
use crate::geometry::num_values;
use crate::geometry::num_values_of;
use crate::geometry::width;
use crate::predicates::grid_filled;
use crate::predicates::grid_legal;
use crate::predicates::grid_solved;
use crate::predicates::grid_wf;
use crate::predicates::cell_groups;
use crate::predicates::cells_legal;
use crate::predicates::extends_from;
use crate::predicates::lemma_group_value_blocks_cell;
use crate::predicates::lemma_illegal_has_no_solution;
use crate::predicates::cell_rank;
use crate::predicates::lemma_lex_extend;
use crate::predicates::lex_leq_from;
use crate::predicates::solvable_from;
use crate::predicates::group_complete;
use crate::predicates::group_conflict;
use crate::predicates::group_values;
use crate::predicates::lemma_filled_and_legal_implies_solved;
use crate::predicates::lemma_solved_implies_filled_and_legal;
use crate::predicates::seq_complete;
use crate::predicates::seq_legal;

verus! {

/// The error returned when a grid cannot be solved.
#[derive(Clone, Copy, Debug, PartialEq, Eq, Structural)]
pub enum SolveError {
    /// Some group already held a duplicate value when solving started.
    Illegal,
    /// The exhaustive search found no assignment completing the grid.
    Unsolvable,
}

/// A game of Sudoku.
///
/// A grid is a fixed row-major sequence of optional cell values whose shape
/// is described by a [`Variant`]; the contract of every method speaks of
/// the two ghost projections [`Sudoku::variant`] and [`Sudoku::cells_seq`].
pub trait Sudoku: Sized {
    /// The variant describing this grid's shape.
    spec fn variant(&self) -> Variant;

    /// The current cells of the grid, in row-major order.
    spec fn cells_seq(&self) -> Seq<Cell>;

    /// The variant describing this grid's shape, as a runtime value.
    fn variant_value(&self) -> (r: Variant)
        ensures
            r == self.variant(),
    ;

    /// Get the number on a cell on the grid.
    fn get(&self, i: usize) -> (c: Cell)
        requires
            grid_wf(self.variant(), self.cells_seq()),
            (i as int) < cell_count(self.variant()),
        ensures
            c == self.cells_seq()[i as int],
    ;

    /// Set the number on a cell on the grid, or clear it.
    ///
    /// The index must be within the grid and a present value must lie in
    /// the variant's legal range.
    fn set(&mut self, i: usize, num: Cell)
        requires
            grid_wf(old(self).variant(), old(self).cells_seq()),
            (i as int) < cell_count(old(self).variant()),
            num matches Some(d) ==> 1 <= d as int && d as int <= num_values(old(self).variant()),
        ensures
            final(self).variant() == old(self).variant(),
            final(self).cells_seq() == old(self).cells_seq().update(i as int, num),
            grid_wf(final(self).variant(), final(self).cells_seq()),
    ;

    /// Get all the cells on the grid.
    fn cells(&self) -> (r: &[Cell])
        ensures
            r@ == self.cells_seq(),
    ;

    /// Get a mutable reference to all the cells on the grid.
    fn cells_mut(&mut self) -> (r: &mut Vec<Cell>)
        ensures
            (*r)@ == old(self).cells_seq(),
            final(self).cells_seq() == (*final(r))@,
            final(self).variant() == old(self).variant(),
    ;

    /// Get all possible valid values for the cells, in increasing order.
    fn cell_values(&self) -> (r: Vec<u8>)
        ensures
            r@.len() == num_values(self.variant()),
            forall|k: int| 0 <= k < r@.len() ==> #[trigger] r@[k] as int == k + 1,
    ;

    /// Get all the rows.
    fn rows(&self) -> (r: Vec<Vec<Cell>>)
        requires
            grid_wf(self.variant(), self.cells_seq()),
        ensures
            r@.len() == width(self.variant()),
            forall|t: int|
                0 <= t < r@.len() ==> #[trigger] r@[t]@ == group_values(
                    self.variant(),
                    self.cells_seq(),
                    t,
                ),
    ;

    /// Get all the columns.
    fn columns(&self) -> (r: Vec<Vec<Cell>>)
        requires
            grid_wf(self.variant(), self.cells_seq()),
        ensures
            r@.len() == width(self.variant()),
            forall|t: int|
                0 <= t < r@.len() ==> #[trigger] r@[t]@ == group_values(
                    self.variant(),
                    self.cells_seq(),
                    width(self.variant()) + t,
                ),
    ;

    /// Get all the boxes, the extra regions included.
    fn grids(&self) -> (r: Vec<Vec<Cell>>)
        requires
            grid_wf(self.variant(), self.cells_seq()),
        ensures
            r@.len() == num_boxes(self.variant()),
            forall|t: int|
                0 <= t < r@.len() ==> #[trigger] r@[t]@ == group_values(
                    self.variant(),
                    self.cells_seq(),
                    2 * width(self.variant()) + t,
                ),
    ;

    /// Get all groups a cell is part of: its row, its column, its box, and
    /// (hyper only) its extra region.
    fn groups_of(&self, i: usize) -> (r: Vec<Vec<Cell>>)
        requires
            grid_wf(self.variant(), self.cells_seq()),
            (i as int) < cell_count(self.variant()),
        ensures
            r@.len() == cell_group_ids(self.variant(), i as int).len(),
            forall|t: int|
                0 <= t < r@.len() ==> #[trigger] r@[t]@ == group_values(
                    self.variant(),
                    self.cells_seq(),
                    cell_group_ids(self.variant(), i as int)[t],
                ),
    ;

    /// Get all cell groups: every row, every column and every box, in that
    /// order.
    fn groups(&self) -> (r: Vec<Vec<Cell>>)
        requires
            grid_wf(self.variant(), self.cells_seq()),
        ensures
            r@.len() == num_groups(self.variant()),
            forall|t: int|
                0 <= t < r@.len() ==> #[trigger] r@[t]@ == group_values(
                    self.variant(),
                    self.cells_seq(),
                    t,
                ),
    {
        let mut v: Vec<Vec<Cell>> = Vec::new();
        let mut rows = self.rows();
        let ghost rows0 = rows@;
        let mut cols = self.columns();
        let ghost cols0 = cols@;
        let mut grids = self.grids();
        let ghost grids0 = grids@;
        v.append(&mut rows);
        v.append(&mut cols);
        v.append(&mut grids);
        proof {
            let w = width(self.variant());
            assert(v@ =~= rows0 + cols0 + grids0);
            assert forall|t: int| 0 <= t < v@.len() implies #[trigger] v@[t]@ == group_values(
                self.variant(),
                self.cells_seq(),
                t,
            ) by {
                if t < w {
                    assert(v@[t] == rows0[t]);
                } else if t < 2 * w {
                    assert(v@[t] == cols0[t - w]);
                } else {
                    assert(v@[t] == grids0[t - 2 * w]);
                }
            }
        }
        v
    }

    /// Check if all cells in the grid have been filled.
    fn filled(&self) -> (r: bool)
        requires
            grid_wf(self.variant(), self.cells_seq()),
        ensures
            r == grid_filled(self.cells_seq()),
    {
        let cells = self.cells();
        let n = cells.len();
        let mut j: usize = 0;
        while j < n
            invariant
                0 <= j <= n,
                n == cells@.len(),
                cells@ == self.cells_seq(),
                forall|t: int| 0 <= t < j ==> #[trigger] cells@[t] is Some,
            decreases n - j,
        {
            if cells[j].is_none() {
                return false;
            }
            j += 1;
        }
        true
    }

    /// Check if all currently set cells are legal: within every group, no
    /// value occurs twice among the present cells.
    fn legal(&self) -> (r: bool)
        requires
            grid_wf(self.variant(), self.cells_seq()),
        ensures
            r == grid_legal(self.variant(), self.cells_seq()),
    {
        let groups = self.groups();
        let n = groups.len();
        let mut g: usize = 0;
        while g < n
            invariant
                0 <= g <= n,
                n == groups@.len(),
                n == num_groups(self.variant()),
                forall|t: int|
                    0 <= t < n ==> #[trigger] groups@[t]@ == group_values(
                        self.variant(),
                        self.cells_seq(),
                        t,
                    ),
                forall|t: int|
                    0 <= t < g ==> seq_legal(
                        #[trigger] group_values(self.variant(), self.cells_seq(), t),
                    ),
            decreases n - g,
        {
            if group_conflict(&groups[g]) {
                return false;
            }
            g += 1;
        }
        true
    }

    /// Check if the grid has been solved: every group completely filled
    /// with no repeating values.
    fn solved(&self) -> (r: bool)
        requires
            grid_wf(self.variant(), self.cells_seq()),
        ensures
            r == grid_solved(self.variant(), self.cells_seq()),
    {
        let groups = self.groups();
        let n = groups.len();
        let mut g: usize = 0;
        while g < n
            invariant
                0 <= g <= n,
                n == groups@.len(),
                n == num_groups(self.variant()),
                forall|t: int|
                    0 <= t < n ==> #[trigger] groups@[t]@ == group_values(
                        self.variant(),
                        self.cells_seq(),
                        t,
                    ),
                forall|t: int|
                    0 <= t < g ==> seq_complete(
                        #[trigger] group_values(self.variant(), self.cells_seq(), t),
                    ) && seq_legal(group_values(self.variant(), self.cells_seq(), t)),
            decreases n - g,
        {
            if !group_complete(&groups[g]) {
                return false;
            }
            if group_conflict(&groups[g]) {
                return false;
            }
            g += 1;
        }
        true
    }

    /// Solve the grid in place by exhaustive backtracking search.
    ///
    /// On success the grid holds a complete legal solution extending the
    /// given cells; on failure the grid is exactly as it was before the
    /// call. An input with a duplicate value in some group is rejected as
    /// [`SolveError::Illegal`] without any search; an already solved grid
    /// is returned unchanged with success.
    fn solve(&mut self) -> (r: Result<(), SolveError>)
        requires
            grid_wf(old(self).variant(), old(self).cells_seq()),
        ensures
            final(self).variant() == old(self).variant(),
            grid_wf(final(self).variant(), final(self).cells_seq()),
            r is Ok ==> grid_solved(final(self).variant(), final(self).cells_seq()),
            r is Ok ==> forall|j: int|
                0 <= j < old(self).cells_seq().len() && old(self).cells_seq()[j] is Some
                    ==> #[trigger] final(self).cells_seq()[j] == old(self).cells_seq()[j],
            r is Err ==> final(self).cells_seq() == old(self).cells_seq(),
            r == Err::<(), SolveError>(SolveError::Illegal) <==> !grid_legal(
                old(self).variant(),
                old(self).cells_seq(),
            ),
            grid_solved(old(self).variant(), old(self).cells_seq()) ==> r is Ok
                && final(self).cells_seq() == old(self).cells_seq(),
            (r is Ok) <==> solvable_from(old(self).variant(), old(self).cells_seq(), 0),
            r is Ok ==> forall|h: Seq<Cell>|
                grid_wf(old(self).variant(), h) && #[trigger] grid_solved(old(self).variant(), h)
                    && extends_from(old(self).cells_seq(), h, 0) ==> lex_leq_from(
                    final(self).cells_seq(),
                    h,
                    0,
                ),
    {
        proof {
            if grid_solved(old(self).variant(), old(self).cells_seq()) {
                lemma_solved_implies_filled_and_legal(old(self).variant(), old(self).cells_seq());
            }
        }
        let v = self.variant_value();
        let cells = self.cells_mut();
        let r = backtrack(v, cells, 0);
        proof {
            if grid_solved(old(self).variant(), old(self).cells_seq()) {
                assert(self.cells_seq() =~= old(self).cells_seq());
            }
            if r is Ok {
                // the solved grid itself witnesses that a completion exists
                assert(extends_from(old(self).cells_seq(), self.cells_seq(), 0));
                assert(solvable_from(old(self).variant(), old(self).cells_seq(), 0));
            }
        }
        r
    }
}

/// A set of cell values with the deterministic hasher of `rustc_hash`.
#[verifier::external_type_specification]
#[verifier::external_body]
pub struct ExFxBuildHasher(rustc_hash::FxBuildHasher);

/// Relies on `HashSet::default` with the `rustc_hash` build hasher: the new
/// set is empty.
#[verifier::external_body]
fn fx_set_new() -> (s: rustc_hash::FxHashSet<Cell>)
    ensures
        s@ == Set::<Cell>::empty(),
{
    rustc_hash::FxHashSet::default()
}

/// Relies on `HashSet::insert`: afterwards the set holds the given value
/// besides what it already held.
#[verifier::external_body]
fn fx_set_insert(s: &mut rustc_hash::FxHashSet<Cell>, c: Cell)
    ensures
        final(s)@ == old(s)@.insert(c),
{
    s.insert(c);
}

/// Relies on `HashSet::contains`: whether the set holds the given value.
#[verifier::external_body]
fn fx_set_contains(s: &rustc_hash::FxHashSet<Cell>, c: Cell) -> (r: bool)
    ensures
        r == s@.contains(c),
{
    s.contains(&c)
}

/// The set of cell values occurring in the given groups: a value the set
/// holds really does occur there.
fn exclusion_set(groups: &Vec<Vec<Cell>>) -> (s: rustc_hash::FxHashSet<Cell>)
    ensures
        forall|c: Cell|
            s@.contains(c) ==> exists|g: int, k: int|
                0 <= g < groups@.len() && 0 <= k < groups@[g]@.len() && #[trigger] groups@[g]@[k]
                    == c,
{
    let mut s = fx_set_new();
    let mut g: usize = 0;
    while g < groups.len()
        invariant
            0 <= g <= groups@.len(),
            forall|c: Cell|
                s@.contains(c) ==> exists|x: int, k: int|
                    0 <= x < groups@.len() && 0 <= k < groups@[x]@.len()
                        && #[trigger] groups@[x]@[k] == c,
        decreases groups@.len() - g,
    {
        let group = &groups[g];
        let mut k: usize = 0;
        while k < group.len()
            invariant
                0 <= g < groups@.len(),
                0 <= k <= group@.len(),
                group@ == groups@[g as int]@,
                forall|c: Cell|
                    s@.contains(c) ==> exists|x: int, t: int|
                        0 <= x < groups@.len() && 0 <= t < groups@[x]@.len()
                            && #[trigger] groups@[x]@[t] == c,
            decreases group@.len() - k,
        {
            fx_set_insert(&mut s, group[k]);
            proof {
                assert(groups@[g as int]@[k as int] == group@[k as int]);
            }
            k += 1;
        }
        g += 1;
    }
    s
}

/// One step of the backtracking search, at cell position `pos`.
///
/// All cells before `pos` are already filled. If the grid is illegal the
/// whole search fails at once; otherwise the first empty cell from `pos` on
/// is tried with every candidate value in increasing order, and a failed
/// candidate is reverted before the next one, so that on failure the grid
/// is exactly as it was on entry.
fn backtrack(v: Variant, cells: &mut Vec<Cell>, pos: usize) -> (r: Result<(), SolveError>)
    requires
        grid_wf(v, old(cells)@),
        (pos as int) <= cell_count(v),
        forall|j: int| 0 <= j < pos ==> #[trigger] old(cells)@[j] is Some,
    ensures
        grid_wf(v, final(cells)@),
        forall|j: int|
            0 <= j < old(cells)@.len() && (j < pos || old(cells)@[j] is Some)
                ==> #[trigger] final(cells)@[j] == old(cells)@[j],
        r is Ok ==> grid_solved(v, final(cells)@),
        r is Err ==> final(cells)@ == old(cells)@,
        r == Err::<(), SolveError>(SolveError::Illegal) <==> !grid_legal(v, old(cells)@),
        grid_legal(v, old(cells)@) && grid_filled(old(cells)@) ==> r is Ok,
        r is Err ==> !solvable_from(v, old(cells)@, pos as int),
        r is Ok ==> forall|h: Seq<Cell>|
            grid_wf(v, h) && #[trigger] grid_solved(v, h) && extends_from(
                old(cells)@,
                h,
                pos as int,
            ) ==> lex_leq_from(final(cells)@, h, pos as int),
    decreases cell_count(v) - pos,
{
    if !cells_legal(v, cells.as_slice()) {
        proof {
            assert forall|h: Seq<Cell>|
                grid_wf(v, h) && #[trigger] grid_solved(v, h) && extends_from(
                    cells@,
                    h,
                    pos as int,
                ) implies false by {
                lemma_illegal_has_no_solution(v, cells@, h);
            }
            assert(!solvable_from(v, cells@, pos as int));
        }
        return Err(SolveError::Illegal);
    }
    let n = cells.len();
    if pos >= n {
        proof {
            assert(grid_filled(cells@));
            lemma_filled_and_legal_implies_solved(v, cells@);
            assert forall|h: Seq<Cell>|
                grid_wf(v, h) && #[trigger] grid_solved(v, h) && extends_from(
                    cells@,
                    h,
                    pos as int,
                ) implies lex_leq_from(cells@, h, pos as int) by {
                assert(forall|q: int| pos <= q < cells@.len() ==> #[trigger] cells@[q] == h[q]);
            }
        }
        return Ok(());
    }
    if cells[pos].is_some() {
        let r = backtrack(v, cells, pos + 1);
        proof {
            if r is Ok {
                assert forall|h: Seq<Cell>|
                    grid_wf(v, h) && #[trigger] grid_solved(v, h) && extends_from(
                        old(cells)@,
                        h,
                        pos as int,
                    ) implies lex_leq_from(cells@, h, pos as int) by {
                    assert(extends_from(old(cells)@, h, pos + 1));
                    assert(lex_leq_from(cells@, h, pos + 1));
                    assert(cells@[pos as int] == old(cells)@[pos as int]);
                    assert(h[pos as int] == old(cells)@[pos as int]);
                    lemma_lex_extend(cells@, h, pos as int);
                }
            }
            if r is Err {
                assert forall|h: Seq<Cell>|
                    grid_wf(v, h) && #[trigger] grid_solved(v, h) && extends_from(
                        old(cells)@,
                        h,
                        pos as int,
                    ) implies false by {
                    assert(extends_from(old(cells)@, h, pos + 1));
                    assert(solvable_from(v, old(cells)@, pos + 1));
                }
                assert(!solvable_from(v, old(cells)@, pos as int));
            }
        }
        return r;
    }
    let groups = cell_groups(v, cells.as_slice(), pos);
    let excluded = exclusion_set(&groups);
    let nvals = num_values_of(v);
    let mut val: u8 = 1;
    while val <= nvals
        invariant
            1 <= val as int <= nvals as int + 1,
            nvals as int == num_values(v),
            grid_wf(v, cells@),
            grid_wf(v, old(cells)@),
            cells@.len() == old(cells)@.len(),
            (pos as int) < cell_count(v),
            old(cells)@[pos as int] is None,
            grid_legal(v, old(cells)@),
            forall|j: int|
                0 <= j < old(cells)@.len() && j != pos ==> #[trigger] cells@[j] == old(cells)@[j],
            forall|j: int| 0 <= j < pos ==> #[trigger] old(cells)@[j] is Some,
            groups@.len() == cell_group_ids(v, pos as int).len(),
            forall|t: int|
                0 <= t < groups@.len() ==> #[trigger] groups@[t]@ == group_values(
                    v,
                    old(cells)@,
                    cell_group_ids(v, pos as int)[t],
                ),
            forall|c: Cell|
                excluded@.contains(c) ==> exists|t: int, k: int|
                    0 <= t < groups@.len() && 0 <= k < groups@[t]@.len()
                        && #[trigger] groups@[t]@[k] == c,
            forall|h: Seq<Cell>|
                grid_wf(v, h) && #[trigger] grid_solved(v, h) && extends_from(
                    old(cells)@,
                    h,
                    pos as int,
                ) ==> (h[pos as int] matches Some(d) ==> val as int <= d as int),
        decreases nvals + 1 - val,
    {
        if !fx_set_contains(&excluded, Some(val)) {
            cells.set(pos, Some(val));
            let ghost pre = cells@;
            let res = backtrack(v, cells, pos + 1);
            if res.is_ok() {
                proof {
                    assert forall|j: int|
                        0 <= j < old(cells)@.len() && (j < pos || old(cells)@[j] is Some) implies #[trigger] cells@[j]
                        == old(cells)@[j] by {
                        assert(pre[j] == old(cells)@[j]);
                        assert(pre[j] is Some || j < pos + 1);
                    }
                    assert(cells@[pos as int] == Some(val));
                    assert forall|h: Seq<Cell>|
                        grid_wf(v, h) && #[trigger] grid_solved(v, h) && extends_from(
                            old(cells)@,
                            h,
                            pos as int,
                        ) implies lex_leq_from(cells@, h, pos as int) by {
                        lemma_solved_implies_filled_and_legal(v, h);
                        assert(h[pos as int] is Some);
                        let d = h[pos as int]->0;
                        assert(val as int <= d as int);
                        if d == val {
                            assert(extends_from(pre, h, pos + 1)) by {
                                assert forall|j: int|
                                    0 <= j < pre.len() && (j < pos + 1 || pre[j] is Some) implies #[trigger] h[j]
                                    == pre[j] by {
                                    if j != pos {
                                        assert(pre[j] == old(cells)@[j]);
                                    }
                                }
                            }
                            assert(lex_leq_from(cells@, h, pos + 1));
                            lemma_lex_extend(cells@, h, pos as int);
                        } else {
                            assert(cell_rank(cells@[pos as int]) < cell_rank(h[pos as int]));
                            assert(forall|q: int|
                                pos <= q < pos ==> #[trigger] cells@[q] == h[q]);
                            assert(lex_leq_from(cells@, h, pos as int));
                        }
                    }
                }
                return Ok(());
            }
            proof {
                // the failed candidate cannot appear at this cell in any completion
                assert forall|h: Seq<Cell>|
                    grid_wf(v, h) && #[trigger] grid_solved(v, h) && extends_from(
                        old(cells)@,
                        h,
                        pos as int,
                    ) implies h[pos as int] != Some(val) by {
                    if h[pos as int] == Some(val) {
                        assert(extends_from(pre, h, pos + 1)) by {
                            assert forall|j: int|
                                0 <= j < pre.len() && (j < pos + 1 || pre[j] is Some) implies #[trigger] h[j]
                                == pre[j] by {
                                if j != pos {
                                    assert(pre[j] == old(cells)@[j]);
                                }
                            }
                        }
                        assert(solvable_from(v, pre, pos + 1));
                        assert(false);
                    }
                }
            }
        } else {
            proof {
                // an excluded candidate already stands in one of this cell's
                // groups, so no completion can place it here either
                assert forall|h: Seq<Cell>|
                    grid_wf(v, h) && #[trigger] grid_solved(v, h) && extends_from(
                        old(cells)@,
                        h,
                        pos as int,
                    ) implies h[pos as int] != Some(val) by {
                    if h[pos as int] == Some(val) {
                        let (t, k) = choose|t: int, k: int|
                            0 <= t < groups@.len() && 0 <= k < groups@[t]@.len()
                                && #[trigger] groups@[t]@[k] == Some(val);
                        crate::geometry::lemma_cell_group_ids_in_range(v, pos as int);
                        crate::geometry::lemma_group_indices_in_range(
                            v,
                            cell_group_ids(v, pos as int)[t],
                        );
                        lemma_group_value_blocks_cell(v, old(cells)@, h, pos as int, t, k);
                        assert(false);
                    }
                }
            }
        }
        val += 1;
    }
    proof {
        assert forall|h: Seq<Cell>|
            grid_wf(v, h) && #[trigger] grid_solved(v, h) && extends_from(
                old(cells)@,
                h,
                pos as int,
            ) implies false by {
            lemma_solved_implies_filled_and_legal(v, h);
            assert(h[pos as int] is Some);
        }
        assert(!solvable_from(v, old(cells)@, pos as int));
    }
    cells.set(pos, None);
    proof {
        assert(cells@ =~= old(cells)@);
    }
    Err(SolveError::Unsolvable)
}

} // verus!
