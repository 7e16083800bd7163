use abc_puzzle::Cell::{Empty, Unknown, ValA, ValB, ValC, ValD};
use abc_puzzle::Verification::{Fail, Solution, VerOk};
use abc_puzzle::{solve, test_puzzle, Board, Cell, FailReason, LineType, Puzzle};

fn text(cells: &[Cell]) -> String {
    cells.iter().map(|x| x.to_string()).collect::<Vec<String>>().join("")
}

fn small_puzzle(labels: [[Cell; 2]; 4], cells: [Cell; 4]) -> Puzzle {
    Puzzle {
        labels: (
            labels[0].to_vec(),
            labels[1].to_vec(),
            labels[2].to_vec(),
            labels[3].to_vec(),
        ),
        board: Board {
            cells: cells.to_vec(),
        },
    }
}

#[test]
fn parse_each_letter_and_space() {
    assert_eq!(Cell::parse("A"), Ok(ValA));
    assert_eq!(Cell::parse("B"), Ok(ValB));
    assert_eq!(Cell::parse("C"), Ok(ValC));
    assert_eq!(Cell::parse("D"), Ok(ValD));
    assert_eq!(Cell::parse(" "), Ok(Unknown));
    assert_eq!(Cell::parse("*"), Err(()));
    assert_eq!(Cell::parse("a"), Err(()));
    assert_eq!(Cell::parse(""), Err(()));
}

#[test]
fn each_cell_shows_its_symbol() {
    assert_eq!(text(&[ValA, ValB, ValC, ValD, Empty, Unknown]), "ABCD* ");
    assert_eq!(Empty.symbol(), '*');
    assert_eq!(ValD.symbol(), 'D');
}

#[test]
fn new_board_is_square_and_unknown() {
    let board = Board::new(3);
    assert_eq!(board.cells.len(), 9);
    assert_eq!(board.side(), 3);
    assert!(board.cells.iter().all(|c| *c == Unknown));
    assert!(!board.is_filled());
    assert_eq!(Board::new(0).cells.len(), 0);
    assert!(Board::new(0).is_filled());
}

#[test]
fn lines_of_a_three_by_three_board() {
    let board = Board {
        cells: vec![ValA, ValB, ValC, ValD, Empty, Unknown, ValC, ValA, ValB],
    };
    assert_eq!(text(&board.get_line(LineType::Row, 1)), "D* ");
    assert_eq!(text(&board.get_line(LineType::Col, 2)), "C B");
    assert_eq!(board.first_unknown(), Some(5));
}

#[test]
fn duplicate_blank_fails_but_unknowns_do_not() {
    assert!(Puzzle::duplicate_check(&vec![Unknown, Unknown, Unknown]));
    assert!(!Puzzle::duplicate_check(&vec![Empty, ValA, Empty]));
    assert!(!Puzzle::duplicate_check(&vec![ValD, ValD]));
    assert!(Puzzle::duplicate_check(&vec![]));
}

#[test]
fn second_occurrence_of_any_set_value_fails() {
    let line = vec![ValA, ValC, Empty, Unknown, Unknown];
    assert!(Puzzle::duplicate_check(&line));
    for i in 0..3 {
        for j in 0..5 {
            if i != j {
                let mut changed = line.clone();
                changed[j] = line[i];
                assert!(!Puzzle::duplicate_check(&changed));
            }
        }
    }
}

#[test]
fn first_seen_examples() {
    assert_eq!(Puzzle::get_first_seen(&vec![Unknown; 5]), Unknown);
    assert_eq!(
        Puzzle::get_first_seen(&vec![Empty, ValA, Unknown, Unknown, Unknown]),
        ValA
    );
    assert_eq!(Puzzle::get_first_seen(&vec![Empty; 5]), Empty);
    assert_eq!(Puzzle::get_first_seen(&vec![]), Empty);
    assert_eq!(Puzzle::get_first_seen(&vec![Empty, Unknown, ValB]), Unknown);
}

#[test]
fn first_seen_from_each_end() {
    let mut puz = test_puzzle();
    // row 0: * A   B  -> seen from the left A, from the right B
    puz.board.cells[0] = Empty;
    puz.board.cells[1] = ValA;
    puz.board.cells[3] = ValB;
    puz.board.cells[4] = Empty;
    assert_eq!(puz.get_line_first_seen(LineType::Row, 0, false), ValA);
    assert_eq!(puz.get_line_first_seen(LineType::Row, 0, true), ValB);
    assert_eq!(puz.get_line_first_seen(LineType::Col, 0, false), Unknown);
    assert_eq!(puz.get_line_first_seen(LineType::Col, 4, false), Unknown);
}

#[test]
fn clue_check_rules() {
    assert!(Puzzle::clue_check(Unknown, ValA));
    assert!(Puzzle::clue_check(ValA, ValA));
    assert!(Puzzle::clue_check(ValA, Unknown));
    assert!(!Puzzle::clue_check(ValA, ValB));
    assert!(!Puzzle::clue_check(ValA, Empty));
}

#[test]
fn verify_twice_gives_the_same_result_and_keeps_the_puzzle() {
    let mut puz = test_puzzle();
    puz.board.cells[6] = ValC;
    puz.board.cells[7] = ValC;
    let before = puz.board.cells.clone();
    let first = puz.verify();
    let second = puz.verify();
    match (first, second) {
        (Fail(a), Fail(b)) => {
            assert_eq!(a, b);
            assert_eq!(a, FailReason::DuplicateSymbol(LineType::Row, 1));
        }
        _ => assert!(false),
    }
    assert_eq!(puz.board.cells, before);
}

#[test]
fn regression_blank_hides_nothing_above_a_letter() {
    let mut puz = test_puzzle();
    puz.board.cells[6] = ValC;
    puz.board.cells[1] = Empty;
    match puz.verify() {
        Fail(reason) => assert_eq!(reason, FailReason::ClueViolated(LineType::Col, 1, false)),
        _ => assert!(false),
    }
}

#[test]
fn duplicate_in_a_column() {
    let mut puz = test_puzzle();
    puz.board.cells[2] = ValD;
    puz.board.cells[12] = ValD;
    match puz.verify() {
        Fail(reason) => assert_eq!(reason, FailReason::DuplicateSymbol(LineType::Col, 2)),
        _ => assert!(false),
    }
}

#[test]
fn bottom_and_right_clues_are_checked() {
    let mut puz = test_puzzle();
    // bottom clue of column 0 is A
    puz.board.cells[20] = ValB;
    match puz.verify() {
        Fail(reason) => assert_eq!(reason, FailReason::ClueViolated(LineType::Col, 0, true)),
        _ => assert!(false),
    }
    let mut puz = test_puzzle();
    // right clue of row 1 is A
    puz.board.cells[9] = ValC;
    match puz.verify() {
        Fail(reason) => assert_eq!(reason, FailReason::ClueViolated(LineType::Row, 1, true)),
        _ => assert!(false),
    }
    let mut puz = test_puzzle();
    // left clue of row 2 is C
    puz.board.cells[10] = Empty;
    puz.board.cells[11] = ValA;
    match puz.verify() {
        Fail(reason) => assert_eq!(reason, FailReason::ClueViolated(LineType::Row, 2, false)),
        _ => assert!(false),
    }
}

#[test]
fn duplicates_are_reported_before_clues() {
    let mut puz = test_puzzle();
    puz.board.cells[1] = Empty; // would break the top clue of column 1
    puz.board.cells[6] = ValC;
    puz.board.cells[23] = ValA;
    puz.board.cells[24] = ValA; // row 4 holds A twice
    match puz.verify() {
        Fail(reason) => assert_eq!(reason, FailReason::DuplicateSymbol(LineType::Row, 4)),
        _ => assert!(false),
    }
}

#[test]
fn blank_clue_holds_on_an_all_blank_line() {
    let puz = small_puzzle(
        [[Unknown, Unknown], [Unknown, Unknown], [Empty, Unknown], [Unknown, Unknown]],
        [ValA, Unknown, Unknown, Unknown],
    );
    match puz.verify() {
        Fail(reason) => assert_eq!(reason, FailReason::ClueViolated(LineType::Row, 0, false)),
        _ => assert!(false),
    }
}

#[test]
fn solves_the_worked_example() {
    let solved = match solve(test_puzzle()) {
        Some(p) => p,
        None => panic!("the worked example has a solution"),
    };
    assert_eq!(
        text(&solved.board.cells),
        "BAD*CDC*BAC*BAD*DACBABCD*"
    );
    assert!(solved.board.is_filled());
    assert!(solved.board.cells.iter().all(|c| *c != Unknown));
    let fixture = test_puzzle();
    assert_eq!(solved.labels, fixture.labels);
    for k in 0..5 {
        assert!(solved.line_dupe_check(LineType::Row, k));
        assert!(solved.line_dupe_check(LineType::Col, k));
    }
    match solved.verify() {
        Solution(again) => assert_eq!(again.board.cells, solved.board.cells),
        _ => assert!(false),
    }
}

#[test]
fn solution_keeps_the_given_cells() {
    let mut start = test_puzzle();
    start.board.cells[6] = ValC;
    let given = start.board.cells.clone();
    if let Some(solved) = solve(start) {
        for i in 0..25 {
            if given[i] != Unknown {
                assert_eq!(solved.board.cells[i], given[i]);
            }
        }
        match solved.verify() {
            Solution(_) => (),
            _ => assert!(false),
        }
    }
}

#[test]
fn broken_start_has_no_solution() {
    let mut puz = test_puzzle();
    puz.board.cells[0] = ValA;
    puz.board.cells[1] = ValA;
    assert!(solve(puz).is_none());
}

#[test]
fn contradictory_clues_have_no_solution() {
    // a one-cell board whose top clue is A and bottom clue is B
    let puz = Puzzle {
        labels: (vec![ValA], vec![ValB], vec![Unknown], vec![Unknown]),
        board: Board::new(1),
    };
    match puz.verify() {
        VerOk => (),
        _ => assert!(false),
    }
    assert!(solve(puz).is_none());
}

#[test]
fn solved_board_is_returned_as_is() {
    let puz = small_puzzle(
        [[ValA, ValB], [Unknown, Unknown], [Unknown, Unknown], [Unknown, Unknown]],
        [ValA, ValB, ValB, ValA],
    );
    match puz.verify() {
        Solution(p) => assert_eq!(p.board.cells, vec![ValA, ValB, ValB, ValA]),
        _ => assert!(false),
    }
    let solved = solve(puz).unwrap();
    assert_eq!(solved.board.cells, vec![ValA, ValB, ValB, ValA]);
}

#[test]
fn first_candidate_in_letter_order_wins() {
    let puz = small_puzzle(
        [[Unknown, Unknown], [Unknown, Unknown], [Unknown, Unknown], [Unknown, Unknown]],
        [Unknown, Unknown, Unknown, Unknown],
    );
    let solved = solve(puz).unwrap();
    assert_eq!(solved.board.cells, vec![ValA, ValB, ValB, ValA]);
}

#[test]
fn line_types_and_reasons_as_text() {
    assert_eq!(LineType::Row.to_string(), "Row");
    assert_eq!(LineType::Col.to_string(), "Col");
    assert_eq!(
        FailReason::DuplicateSymbol(LineType::Row, 2).to_string(),
        "Duplicate symbol in Row 2"
    );
    assert_eq!(
        FailReason::ClueViolated(LineType::Col, 1, false).to_string(),
        "Top clue violated in Col 1"
    );
    assert_eq!(
        FailReason::ClueViolated(LineType::Col, 0, true).to_string(),
        "Bottom clue violated in Col 0"
    );
    assert_eq!(
        FailReason::ClueViolated(LineType::Row, 305, false).to_string(),
        "Left clue violated in Row 305"
    );
    assert_eq!(
        FailReason::ClueViolated(LineType::Row, 10, true).to_string(),
        "Right clue violated in Row 10"
    );
}

#[test]
fn outcomes_as_text() {
    let mut puz = test_puzzle();
    assert_eq!(puz.verify().to_string(), "Ok");
    puz.board.cells[6] = ValC;
    puz.board.cells[7] = ValC;
    assert_eq!(
        puz.verify().to_string(),
        "Failed: Duplicate symbol in Row 1"
    );
    let solved = solve(test_puzzle()).unwrap();
    assert_eq!(solved.verify().to_string(), "Solved");
}

#[test]
fn worked_example_drawn() {
    let expected = [
        "  B A D B C  \n",
        " ┌─────────┐ \n",
        "B│         │C\n",
        "D│         │A\n",
        "C│         │ \n",
        " │         │B\n",
        " │         │D\n",
        " └─────────┘ \n",
        "  A B     B  \n",
    ]
    .concat();
    assert_eq!(test_puzzle().to_string(), expected);
}

#[test]
fn solution_drawn() {
    let solved = solve(test_puzzle()).unwrap();
    let expected = [
        "  B A D B C  \n",
        " ┌─────────┐ \n",
        "B│B A D * C│C\n",
        "D│D C * B A│A\n",
        "C│C * B A D│ \n",
        " │* D A C B│B\n",
        " │A B C D *│D\n",
        " └─────────┘ \n",
        "  A B     B  \n",
    ]
    .concat();
    assert_eq!(solved.to_string(), expected);
}
