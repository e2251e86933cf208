use sudoku_solver::Sudoku;
use sudoku_solver::suduko::Standard;
use sudoku_solver::suduko::Suduko;
use sudoku_solver::variants::HyperSudoku;
use sudoku_solver::variants::MiniSudoku;
use sudoku_solver::variants::StandardSudoku;

#[test]
fn validation() {
    let suduko = StandardSudoku::from_str(
        "827154396965327148341689752593468271472513689618972435786235914154796823239841567",
    )
    .unwrap();
    assert!(suduko.filled());
    assert!(suduko.solved());

    let suduko = StandardSudoku::from_str(
        "227154396965327148341689752593468271472513689618972435786235914154796823239841567",
    )
    .unwrap();
    assert!(suduko.filled());
    assert!(!suduko.solved());

    let suduko = StandardSudoku::from_str(
        " 27154396965327148341689752593468271472513689618972435786235914154796823239841567",
    )
    .unwrap();
    assert!(!suduko.filled());
    assert!(!suduko.solved());
}

#[test]
fn solve() {
    let mut suduko = StandardSudoku::from_str(
        "7 2 519  3 492 1      7 65 931      2    738 67 34  1949768 2 11   3         94 7",
    )
    .unwrap();
    assert!(suduko.solve().is_ok());
    assert_eq!(
        suduko.to_text(),
        "762851943354926178819473652931568724245197386678342519497685231126734895583219467"
    );
}

#[test]
fn suduko_standard_parse_str() {
    let suduko = Standard::from_str(
        "   357891
35    7  
      5  
  5 4    
 7 98  5 
  35 62 8
  8    72
   42 18 
 92 18   ",
    );

    assert!(suduko.is_ok());
    let suduko = suduko.unwrap();

    assert_eq!(suduko.get(0), None);
    assert_eq!(suduko.get(3), Some(3));
    assert_eq!(suduko.get(10), Some(5));

    let suduko = Standard::from_str(
        "   35789135    7        5    5 4     7 98  5   35 62 8  8    72   42 18  92 18   ",
    );

    assert!(suduko.is_ok());
    let suduko = suduko.unwrap();

    assert_eq!(suduko.get(0), None);
    assert_eq!(suduko.get(3), Some(3));
    assert_eq!(suduko.get(10), Some(5));

    assert_eq!(
        suduko.to_text(),
        "   35789135    7        5    5 4     7 98  5   35 62 8  8    72   42 18  92 18   ",
    )
}

#[test]
fn hyper_groups() {
    let game = HyperSudoku::from_str(
        "       1   2    34    51        65   7 3   8   3          8    58    9  69       ",
    )
    .unwrap();

    assert_eq!(
        game.grids()[0],
        Vec::from([None, None, None, None, None, Some(2), None, None, None,])
    );

    assert_eq!(
        game.grids()[1],
        Vec::from([None, None, None, None, None, None, None, Some(5), Some(1),]),
    );

    assert_eq!(
        game.grids()[9],
        Vec::from([None, Some(2), None, None, None, None, None, None, None,])
    );

    assert_eq!(
        game.grids()[10],
        Vec::from([None, None, Some(3), Some(1), None, None, Some(6), Some(5), None,])
    );

    assert_eq!(
        game.grids()[11],
        Vec::from([None, Some(3), None, None, None, None, Some(8), None, None,])
    );

    assert_eq!(
        game.grids()[12],
        Vec::from([None, None, None, None, None, None, None, Some(9), None,])
    );
}

#[test]
fn groups_of() {
    let game = HyperSudoku::from_str(
        "       1   2    34    51        65   7 3   8   3          8    58    9  69       ",
    )
    .unwrap();

    assert_eq!(game.groups_of(0).len(), 3);
    assert_eq!(game.groups_of(9 + 3)[3], game.grid(9));
    assert_eq!(game.groups_of(9 + 4).len(), 3);
    assert_eq!(game.groups_of(9 + 5)[3], game.grid(10));
    assert_eq!(game.groups_of(9 * 2 + 3)[3], game.grid(9));
    assert_eq!(game.groups_of(5)[2], game.grid(1));
}

#[test]
fn mini_groups() {
    let game = MiniSudoku::from_str("  5 642645 1  3 4  561 3 4 3 66    2").unwrap();

    assert_eq!(game.row(0), [None, None, Some(5), None, Some(6), Some(4)]);
    assert_eq!(game.row(5), [Some(6), None, None, None, None, Some(2)]);
    assert_eq!(game.column(0), [None, Some(2), None, None, None, Some(6)]);
    assert_eq!(
        game.column(5),
        [Some(4), Some(1), None, Some(3), Some(6), Some(2)]
    );
    assert_eq!(
        game.grid(0),
        [None, None, Some(2), Some(6), None, None]
    );
    assert_eq!(
        game.grid(1),
        [Some(5), None, Some(4), Some(5), Some(3), None]
    );
    assert_eq!(game.grid(2), [Some(6), Some(4), None, Some(1), Some(4), None]);
    assert_eq!(game.grid(5), [None, Some(3), None, Some(6), None, Some(2)]);

    let groups_of = game.groups_of(15);
    assert_eq!(groups_of[0], game.row(2));
    assert_eq!(groups_of[1], game.column(3));
    assert_eq!(groups_of[2], game.grid(1));
}

#[test]
fn standard_standard_parse_str() {
    let suduko = StandardSudoku::from_str(
        "   357891
35    7  
      5  
  5 4    
 7 98  5 
  35 62 8
  8    72
   42 18 
 92 18   ",
    );

    assert!(suduko.is_ok());
    let suduko = suduko.unwrap();

    assert_eq!(suduko.get(0), None);
    assert_eq!(suduko.get(3), Some(3));
    assert_eq!(suduko.get(10), Some(5));

    let suduko = StandardSudoku::from_str(
        "   35789135    7        5    5 4     7 98  5   35 62 8  8    72   42 18  92 18   ",
    );

    assert!(suduko.is_ok());
    let suduko = suduko.unwrap();

    assert_eq!(suduko.get(0), None);
    assert_eq!(suduko.get(3), Some(3));
    assert_eq!(suduko.get(10), Some(5));

    assert_eq!(
        suduko.to_text(),
        "   35789135    7        5    5 4     7 98  5   35 62 8  8    72   42 18  92 18   ",
    )
}

#[test]
fn standard_groups() {
    let suduko = StandardSudoku::from_str(
        "1234567892        3        4        5        6        7        8        987654321",
    )
    .unwrap();

    assert_eq!(
        suduko.rows()[0],
        (1..=9).map(|i| Some(i)).collect::<Vec<_>>()
    );
    assert_eq!(
        suduko.rows()[8],
        (1..=9).rev().map(|i| Some(i)).collect::<Vec<_>>()
    );

    assert_eq!(
        suduko.columns()[0],
        (1..=9).map(|i| Some(i)).collect::<Vec<_>>()
    );

    assert_eq!(
        suduko.grids()[0],
        Vec::from([
            Some(1),
            Some(2),
            Some(3),
            Some(2),
            None,
            None,
            Some(3),
            None,
            None
        ])
    );

    assert_eq!(
        suduko.grids()[8],
        Vec::from([
            None,
            None,
            None,
            None,
            None,
            None,
            Some(3),
            Some(2),
            Some(1),
        ])
    )
}
