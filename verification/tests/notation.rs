use chess1::board::{Board, Move, Square};
use chess1::notation::{a_h, check_well_formed_move, one_eight, parse_move, square_to_string, try_parse_move};

fn square(rank: u8, file: u8) -> Square {
    Square { rank, file }
}

#[test]
fn a_move_is_read_from_text() {
    let m = parse_move(&String::from("e2-e4"));
    assert_eq!(m, Move { from: square(1, 4), to: square(3, 4) });
    let m = parse_move(&String::from("a1-h8\n"));
    assert_eq!(m, Move { from: square(0, 0), to: square(7, 7) });
    let m = parse_move(&String::from("g8xf6 and more"));
    assert_eq!(m, Move { from: square(7, 6), to: square(5, 5) });
    let m = parse_move(&String::from("J9-A1"));
    assert_eq!(m, Move { from: square(8, 9), to: square(0, 0) });
}

#[test]
fn text_that_names_no_move_gives_none() {
    assert_eq!(try_parse_move(&String::from("e2-e4")), Some(Move { from: square(1, 4), to: square(3, 4) }));
    assert_eq!(try_parse_move(&String::from("e2e4")), None);
    assert_eq!(try_parse_move(&String::from("")), None);
    assert_eq!(try_parse_move(&String::from("e0-e4")), None);
    assert_eq!(try_parse_move(&String::from("k2-e4")), None);
    assert_eq!(try_parse_move(&String::from("e2-e")), None);
    assert_eq!(try_parse_move(&String::from("22-e4")), None);
    assert_eq!(try_parse_move(&String::from("é2-e4")), None);
}

#[test]
fn well_formed_input() {
    assert!(check_well_formed_move("ai"));
    assert!(check_well_formed_move("e2-e4"));
    assert!(check_well_formed_move("a1 h8"));
    assert!(check_well_formed_move("e2-e4 please"));
    assert!(!check_well_formed_move("e2e4"));
    assert!(!check_well_formed_move(""));
    assert!(!check_well_formed_move("a"));
    assert!(!check_well_formed_move("aj"));
    assert!(!check_well_formed_move("i2-e4"));
    assert!(!check_well_formed_move("e9-e4"));
    assert!(!check_well_formed_move("e2-e0"));
    assert!(!check_well_formed_move("E2-E4"));
    assert!(!check_well_formed_move("a1éa"));
    assert!(a_h('a') && a_h('h') && !a_h('i') && !a_h('A') && !a_h('1'));
    assert!(one_eight('1') && one_eight('8') && !one_eight('9') && !one_eight('0') && !one_eight('a'));
}

#[test]
fn a_square_is_written_as_letter_and_digit() {
    assert_eq!(square_to_string(square(3, 4)), "e4");
    assert_eq!(square_to_string(square(0, 0)), "a1");
    assert_eq!(square_to_string(square(7, 7)), "h8");
    assert_eq!(square_to_string(square(8, 9)), "j9");
}

#[test]
fn written_squares_are_read_back() {
    for r in 0u8..8 {
        for f in 0u8..8 {
            let text = square_to_string(square(r, f)) + "-" + &square_to_string(square(7 - r, 7 - f));
            assert!(check_well_formed_move(&text));
            assert_eq!(parse_move(&text), Move { from: square(r, f), to: square(7 - r, 7 - f) });
        }
    }
}

#[test]
fn the_board_as_text() {
    let board = Board::default();
    assert_eq!(
        board.as_string(),
        "8♜♞♝♛♚♝♞♜\n7♟♟♟♟♟♟♟♟\n6........\n5........\n4........\n3........\n2♙♙♙♙♙♙♙♙\n1♖♘♗♕♔♗♘♖\n abcdefgh"
    );
    let mut board = Board::default();
    board.make_move(Move { from: square(1, 4), to: square(3, 4) });
    assert_eq!(
        board.as_string(),
        "8♜♞♝♛♚♝♞♜\n7♟♟♟♟♟♟♟♟\n6........\n5........\n4....♙...\n3........\n2♙♙♙♙.♙♙♙\n1♖♘♗♕♔♗♘♖\n abcdefgh"
    );
}
