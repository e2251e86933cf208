use sudoku_solver::SolveError;
use sudoku_solver::Sudoku;
use sudoku_solver::ParseError;
use sudoku_solver::suduko::Standard;
use sudoku_solver::suduko::Suduko;
use sudoku_solver::variants::HyperSudoku;
use sudoku_solver::variants::MiniSudoku;
use sudoku_solver::variants::StandardSudoku;

const PUZZLE: &str =
    "7 2 519  3 492 1      7 65 931      2    738 67 34  1949768 2 11   3         94 7";

const SOLVED: &str =
    "827154396965327148341689752593468271472513689618972435786235914154796823239841567";

#[test]
fn round_trip_standard() {
    let game = StandardSudoku::from_str(PUZZLE).unwrap();
    let text = game.to_text();
    assert_eq!(text.chars().count(), 81);
    assert!(text.chars().all(|c| c == ' ' || c.is_ascii_digit()));
    let again = StandardSudoku::from_str(&text).unwrap();
    assert_eq!(game.cells(), again.cells());
}

#[test]
fn round_trip_mini() {
    let game = MiniSudoku::from_str("  5 642645 1  3 4  561 3 4 3 66    2").unwrap();
    let text = game.to_text();
    assert_eq!(text.chars().count(), 36);
    let again = MiniSudoku::from_str(&text).unwrap();
    assert_eq!(game.cells(), again.cells());
}

#[test]
fn round_trip_hyper() {
    let game = HyperSudoku::from_str(
        "       1   2    34    51        65   7 3   8   3          8    58    9  69       ",
    )
    .unwrap();
    let text = game.to_text();
    assert_eq!(text.chars().count(), 81);
    let again = HyperSudoku::from_str(&text).unwrap();
    assert_eq!(game.cells(), again.cells());
}

#[test]
fn solved_implies_filled_and_legal() {
    let game = StandardSudoku::from_str(SOLVED).unwrap();
    assert!(game.solved());
    assert!(game.filled());
    assert!(game.legal());

    // the converse need not hold: filled and illegal, or legal and unfilled
    let partial = StandardSudoku::from_str(PUZZLE).unwrap();
    assert!(partial.legal());
    assert!(!partial.solved());
}

#[test]
fn solve_already_solved_is_identity() {
    let mut game = StandardSudoku::from_str(SOLVED).unwrap();
    assert!(game.solve().is_ok());
    assert_eq!(game.to_text(), SOLVED);
}

#[test]
fn solve_is_deterministic() {
    let mut first = StandardSudoku::from_str(PUZZLE).unwrap();
    let mut second = StandardSudoku::from_str(PUZZLE).unwrap();
    assert!(first.solve().is_ok());
    assert!(second.solve().is_ok());
    assert_eq!(first.to_text(), second.to_text());
}

#[test]
fn illegal_row_rejected_without_search() {
    // two 7s in the first row
    let mut text = String::from("77");
    text.push_str(&" ".repeat(79));
    let mut game = StandardSudoku::from_str(&text).unwrap();
    assert!(!game.legal());
    assert_eq!(game.solve(), Err(SolveError::Illegal));
    // the grid is exactly as it was
    assert_eq!(game.to_text(), text);
}

#[test]
fn mini_rejects_out_of_range_digit() {
    // a 7 cannot enter a 6x6 grid: it is no significant character there,
    // so the text falls short of 36 cells and is rejected
    let text = "  5 642645 1  3 4  561 3 4 3 66    7";
    assert_eq!(
        MiniSudoku::from_str(text).err(),
        Some(ParseError::InvalidLength)
    );
}

#[test]
fn hyper_extra_region_group_counts() {
    let game = HyperSudoku::new();
    // a cell inside the first extra region reports four groups
    assert_eq!(game.groups_of(9 + 1).len(), 4);
    // the grid's very center lies outside every extra region
    assert_eq!(game.groups_of(4 * 9 + 4).len(), 3);
    // so does the top-left corner
    assert_eq!(game.groups_of(0).len(), 3);
}

#[test]
fn unsolvable_grid_reports_exhaustion() {
    // cell (0,0) is empty; its row holds 2 to 9 and its column holds 1,
    // so no value can complete it
    let mut text = String::from(" 23456789");
    text.push('1');
    text.push_str(&" ".repeat(71));
    let mut game = StandardSudoku::from_str(&text).unwrap();
    assert!(game.legal());
    assert_eq!(game.solve(), Err(SolveError::Unsolvable));
    assert_eq!(game.to_text(), text);
}

#[test]
fn short_text_rejected() {
    assert_eq!(
        StandardSudoku::from_str("123").err(),
        Some(ParseError::InvalidLength)
    );
    assert_eq!(
        HyperSudoku::from_str("").err(),
        Some(ParseError::InvalidLength)
    );
}

#[test]
fn empty_mini_solves() {
    let mut game = MiniSudoku::new();
    assert!(game.solve().is_ok());
    assert!(game.solved());
}

#[test]
fn solve_keeps_given_cells() {
    let mut game = HyperSudoku::from_str(
        "       1   2    34    51        65   7 3   8   3          8    58    9  69       ",
    )
    .unwrap();
    let given: Vec<(usize, Option<u8>)> = (0..81)
        .filter(|&i| game.get(i).is_some())
        .map(|i| (i, game.get(i)))
        .collect();
    assert!(game.solve().is_ok());
    assert!(game.solved());
    for (i, value) in given {
        assert_eq!(game.get(i), value);
    }
}

#[test]
fn suduko_set_and_get() {
    let mut game = Standard::new();
    assert_eq!(game.get(40), None);
    game.set(40, Some(5));
    assert_eq!(game.get(40), Some(5));
    game.set(40, None);
    assert_eq!(game.get(40), None);
    assert_eq!(game.cells().len(), 81);
}
