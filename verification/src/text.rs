//! Text encoding of grids.
//!
//! A grid serializes to a string of exactly `cell_count(v)` characters:
//! digits `1..=num_values(v)` denote a filled cell, a space denotes an empty
//! cell. When parsing, any other character is ignored (which allows embedded
//! newlines for readability), but exactly `cell_count(v)` significant
//! characters must remain after filtering, else parsing fails.

use vstd::prelude::*;
use vstd::string::StrSliceExecFns;
use vstd::string::StringExecFns;

use crate::geometry::Cell;
use crate::geometry::Variant;
use crate::geometry::cell_count;
use crate::geometry::cell_count_of;
use crate::geometry::num_values;
use crate::geometry::num_values_of;

verus! {

/// The error returned when a grid cannot be read from text.
#[derive(Clone, Copy, Debug, PartialEq, Eq, Structural)]
pub enum ParseError {
    /// After dropping ignored characters, the text did not hold exactly one
    /// character per cell.
    InvalidLength,
}

/// The digit denoted by a character, if any.
pub open spec fn digit_of_char(ch: char) -> Option<u8> {
    match ch {
        '1' => Some(1),
        '2' => Some(2),
        '3' => Some(3),
        '4' => Some(4),
        '5' => Some(5),
        '6' => Some(6),
        '7' => Some(7),
        '8' => Some(8),
        '9' => Some(9),
        _ => None,
    }
}

/// The character denoting a cell: its digit when present, a space when
/// empty.
pub open spec fn char_of_cell(c: Cell) -> char {
    match c {
        None => ' ',
        Some(1u8) => '1',
        Some(2u8) => '2',
        Some(3u8) => '3',
        Some(4u8) => '4',
        Some(5u8) => '5',
        Some(6u8) => '6',
        Some(7u8) => '7',
        Some(8u8) => '8',
        Some(9u8) => '9',
        Some(_) => ' ',
    }
}

/// What one character of input contributes: `Some(cell)` for a significant
/// character (a space or an in-range digit), `None` for an ignored one.
pub open spec fn cell_of_char(v: Variant, ch: char) -> Option<Cell> {
    if ch == ' ' {
        Some(None)
    } else {
        match digit_of_char(ch) {
            Some(d) => if 1 <= d as int && d as int <= num_values(v) {
                Some(Some(d))
            } else {
                None
            },
            None => None,
        }
    }
}

/// The cells denoted by the significant characters of `s`, in order.
pub open spec fn cells_of_text(v: Variant, s: Seq<char>) -> Seq<Cell>
    decreases s.len(),
{
    if s.len() == 0 {
        Seq::empty()
    } else {
        let rest = cells_of_text(v, s.drop_last());
        match cell_of_char(v, s.last()) {
            Some(c) => rest.push(c),
            None => rest,
        }
    }
}

/// The text denoting a grid: one character per cell.
pub open spec fn text_of_cells(cells: Seq<Cell>) -> Seq<char> {
    cells.map_values(|c: Cell| char_of_cell(c))
}

/// Reading back the text of a well-formed grid yields the grid again, and
/// the text has exactly one character per cell, each a digit or a space.
pub proof fn lemma_text_round_trip(v: Variant, cells: Seq<Cell>)
    requires
        crate::predicates::grid_wf(v, cells),
    ensures
        cells_of_text(v, text_of_cells(cells)) == cells,
        text_of_cells(cells).len() == cell_count(v),
        forall|k: int|
            0 <= k < text_of_cells(cells).len() ==> (#[trigger] text_of_cells(cells)[k] == ' '
                || digit_of_char(text_of_cells(cells)[k]) is Some),
{
    lemma_text_round_trip_rec(v, cells);
}

proof fn lemma_text_round_trip_rec(v: Variant, cells: Seq<Cell>)
    requires
        forall|j: int| 0 <= j < cells.len() ==> crate::predicates::cell_ok(v, #[trigger] cells[j]),
    ensures
        cells_of_text(v, text_of_cells(cells)) == cells,
        text_of_cells(cells).len() == cells.len(),
        forall|k: int|
            0 <= k < text_of_cells(cells).len() ==> (#[trigger] text_of_cells(cells)[k] == ' '
                || digit_of_char(text_of_cells(cells)[k]) is Some),
    decreases cells.len(),
{
    let t = text_of_cells(cells);
    if cells.len() == 0 {
        assert(cells_of_text(v, t) =~= cells);
    } else {
        let front = cells.drop_last();
        lemma_text_round_trip_rec(v, front);
        assert(t.drop_last() =~= text_of_cells(front));
        assert(t.last() == char_of_cell(cells.last()));
        let lc = cells.last();
        assert(crate::predicates::cell_ok(v, lc));
        match lc {
            None => {
                assert(cell_of_char(v, char_of_cell(lc)) == Some(lc));
            },
            Some(d) => {
                assert(1 <= d as int && d as int <= num_values(v));
                assert(cell_of_char(v, char_of_cell(lc)) == Some(lc));
            },
        }
        assert(cells_of_text(v, t) == cells_of_text(v, t.drop_last()).push(cells.last()));
        assert(cells_of_text(v, t) =~= cells);
    }
}

/// One character of output per cell.
fn push_cell_char(out: &mut String, c: Cell)
    ensures
        final(out)@ == old(out)@.push(char_of_cell(c)),
{
    let piece: &str = match c {
        None => " ",
        Some(1u8) => "1",
        Some(2u8) => "2",
        Some(3u8) => "3",
        Some(4u8) => "4",
        Some(5u8) => "5",
        Some(6u8) => "6",
        Some(7u8) => "7",
        Some(8u8) => "8",
        Some(9u8) => "9",
        Some(_) => " ",
    };
    proof {
        reveal_strlit(" ");
        reveal_strlit("1");
        reveal_strlit("2");
        reveal_strlit("3");
        reveal_strlit("4");
        reveal_strlit("5");
        reveal_strlit("6");
        reveal_strlit("7");
        reveal_strlit("8");
        reveal_strlit("9");
    }
    out.append(piece);
    proof {
        assert(out@ =~= old(out)@.push(char_of_cell(c)));
    }
}

/// The text of a grid, one character per cell: digits for present values,
/// spaces for empty cells.
pub fn render_cells(cells: &Vec<Cell>) -> (r: String)
    ensures
        r@ == text_of_cells(cells@),
{
    let mut out = String::new();
    let mut i: usize = 0;
    while i < cells.len()
        invariant
            0 <= i <= cells@.len(),
            out@ == text_of_cells(cells@.take(i as int)),
        decreases cells@.len() - i,
    {
        push_cell_char(&mut out, cells[i]);
        proof {
            assert(cells@.take(i + 1).map_values(|c: Cell| char_of_cell(c)) =~= cells@.take(
                i as int,
            ).map_values(|c: Cell| char_of_cell(c)).push(char_of_cell(cells@[i as int])));
        }
        i += 1;
    }
    proof {
        assert(cells@.take(cells@.len() as int) =~= cells@);
    }
    out
}

/// The significant character read from `ch`, if any.
fn read_char(v: Variant, ch: char) -> (r: Option<Cell>)
    ensures
        r == cell_of_char(v, ch),
{
    if ch == ' ' {
        return Some(None);
    }
    let d: Option<u8> = match ch {
        '1' => Some(1),
        '2' => Some(2),
        '3' => Some(3),
        '4' => Some(4),
        '5' => Some(5),
        '6' => Some(6),
        '7' => Some(7),
        '8' => Some(8),
        '9' => Some(9),
        _ => None,
    };
    match d {
        Some(d) => {
            if d <= num_values_of(v) {
                Some(Some(d))
            } else {
                None
            }
        },
        None => None,
    }
}

/// The grid cells denoted by `s`.
///
/// Characters other than spaces and in-range digits are ignored; exactly
/// one significant character per cell must remain, else the text is
/// rejected.
pub fn parse_cells(v: Variant, s: &str) -> (r: Result<Vec<Cell>, ParseError>)
    ensures
        r matches Ok(cells) ==> cells@ == cells_of_text(v, s@) && crate::predicates::grid_wf(
            v,
            cells@,
        ),
        r is Err ==> r == Err::<Vec<Cell>, ParseError>(ParseError::InvalidLength),
        (r is Ok) <==> cells_of_text(v, s@).len() == cell_count(v),
{
    let n = s.unicode_len();
    let mut acc: Vec<Cell> = Vec::new();
    let mut i: usize = 0;
    while i < n
        invariant
            0 <= i <= n,
            n == s@.len(),
            acc@ == cells_of_text(v, s@.take(i as int)),
            forall|j: int| 0 <= j < acc@.len() ==> crate::predicates::cell_ok(v, #[trigger] acc@[j]),
        decreases n - i,
    {
        let ch = s.get_char(i);
        proof {
            assert(s@.take(i + 1).drop_last() =~= s@.take(i as int));
            assert(s@.take(i + 1).last() == s@[i as int]);
        }
        match read_char(v, ch) {
            Some(cell) => {
                acc.push(cell);
            },
            None => {},
        }
        i += 1;
    }
    proof {
        assert(s@.take(n as int) =~= s@);
    }
    let want = cell_count_of(v);
    if acc.len() != want {
        return Err(ParseError::InvalidLength);
    }
    Ok(acc)
}

} // verus!
