use std::str::FromStr;

use abc_puzzle::Cell::{Empty, Unknown, ValA, ValB, ValC, ValD};
use abc_puzzle::Verification::{Fail, VerOk};
use abc_puzzle::{test_board, test_puzzle, Board, Cell, FailReason, LineType, Puzzle};

#[test]
fn test_cell_from_str() {
    match Cell::from_str("A") {
        Ok(ValA) => (),
        _ => assert!(false),
    };

    match Cell::from_str("ABC") {
        Err(_) => (),
        _ => assert!(false),
    }
}

#[test]
fn test_get_line() {
    let board = test_board();

    let rowstr = board
        .get_line(LineType::Row, 2)
        .iter()
        .map(|x| x.to_string())
        .collect::<Vec<String>>()
        .join("");

    assert_eq!(rowstr, "BCD  ");

    let colstr = board
        .get_line(LineType::Col, 1)
        .iter()
        .map(|x| x.to_string())
        .collect::<Vec<String>>()
        .join("");

    assert_eq!(colstr, "A C  ")
}

#[test]
fn test_is_filled() {
    let mut full_board = Board {
        cells: vec![ValA; 25],
    };

    assert!(full_board.is_filled());

    // make an arbitrary cell unknown
    full_board.cells[13] = Unknown;

    assert!(!full_board.is_filled())
}

#[test]
fn test_verify() {
    let mut puz = test_puzzle();

    match puz.verify() {
        VerOk => (),
        _ => assert!(false),
    }

    puz.board.cells[6] = ValC; // this is fine

    match puz.verify() {
        VerOk => (),
        _ => assert!(false),
    }

    puz.board.cells[1] = Empty; // violates seen rule

    match puz.verify() {
        Fail(reason) => assert_eq!(reason, FailReason::ClueViolated(LineType::Col, 1, false)),
        _ => assert!(false),
    }

    puz.board.cells[1] = Unknown;
    puz.board.cells[7] = ValC;

    match puz.verify() {
        Fail(reason) => assert_eq!(reason, FailReason::DuplicateSymbol(LineType::Row, 1)),
        _ => assert!(false),
    }
}

#[test]
fn test_dup_check() {
    let mut cells = vec![Unknown; 5];

    assert!(Puzzle::duplicate_check(&cells));

    cells[0] = ValA;
    cells[1] = ValC;
    cells[2] = Empty;

    assert!(Puzzle::duplicate_check(&cells));

    cells[3] = ValC;

    //this should fail
    assert!(!Puzzle::duplicate_check(&cells));
}

#[test]
fn test_first_seen() {
    let mut cells = vec![Unknown; 5];

    assert_eq!(Unknown, Puzzle::get_first_seen(&cells));

    cells[4] = ValB;

    assert_eq!(Unknown, Puzzle::get_first_seen(&cells));

    cells[0] = Empty;
    cells[1] = ValA;

    assert_eq!(ValA, Puzzle::get_first_seen(&cells))
}
