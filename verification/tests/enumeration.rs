use chess1::board::{Board, Move, Square};
use chess1::piece::{Color, GameOver, Piece};

fn sq(text: &str) -> Square {
    let b = text.as_bytes();
    Square { rank: b[1] - b'1', file: b[0] - b'a' }
}

fn mv(text: &str) -> Move {
    Move { from: sq(&text[0..2]), to: sq(&text[3..5]) }
}

fn mvs(texts: &[&str]) -> Vec<Move> {
    texts.iter().map(|t| mv(t)).collect()
}

fn bare(pieces: &[(&str, Piece)], active: Color) -> Board {
    let mut state = [[Piece::Empty; 8]; 8];
    for (name, piece) in pieces {
        let s = sq(name);
        state[s.rank as usize][s.file as usize] = *piece;
    }
    Board { state, history: vec![], castle_rights: 0, active_color: active, move_count: 0, en_passant: 8 }
}

fn play(board: &mut Board, moves: &[&str]) {
    for text in moves {
        let m = mv(text);
        assert!(board.check_move(m, board.active_color), "{} should be legal", text);
        board.make_move(m);
    }
}

#[test]
fn the_start_position_has_twenty_moves() {
    let board = Board::default();
    let white = board.slow_enumerate_moves(Color::White);
    assert_eq!(white.len(), 20);
    assert_eq!(board.slow_enumerate_moves(Color::Black).len(), 20);
    assert_eq!(board.slow_enumerate_moves(Color::Neither).len(), 0);
    assert_eq!(
        white,
        mvs(&[
            "b1-a3", "b1-c3", "g1-f3", "g1-h3", "a2-a3", "a2-a4", "b2-b3", "b2-b4", "c2-c3", "c2-c4",
            "d2-d3", "d2-d4", "e2-e3", "e2-e4", "f2-f3", "f2-f4", "g2-g3", "g2-g4", "h2-h3", "h2-h4",
        ])
    );
}

#[test]
fn every_enumerated_move_is_legal_and_every_legal_move_is_enumerated() {
    let mut board = Board::default();
    play(&mut board, &["e2-e4", "d7-d5", "e4-d5", "d8-d5", "b1-c3"]);
    let moves = board.slow_enumerate_moves(Color::Black);
    let mut count = 0;
    for a in 0u8..64 {
        for b in 0u8..64 {
            let m = Move {
                from: Square { rank: a / 8, file: a % 8 },
                to: Square { rank: b / 8, file: b % 8 },
            };
            let legal = board.check_move(m, Color::Black);
            assert_eq!(legal, moves.contains(&m));
            if legal {
                count += 1;
            }
        }
    }
    assert_eq!(count, moves.len());
}

#[test]
fn captures_and_other_moves_are_told_apart() {
    let mut board = Board::default();
    play(&mut board, &["e2-e4", "d7-d5"]);
    assert_eq!(board.slow_enumerate_captures(Color::White), mvs(&["e4-d5"]));
    assert_eq!(board.slow_enumerate_captures(Color::Black), mvs(&["d5-e4"]));
    let quiet = board.slow_enumerate_noncaptures(Color::White);
    assert_eq!(quiet.len(), 30);
    assert!(!quiet.contains(&mv("e4-d5")));
    assert!(quiet.contains(&mv("e4-e5")));
    assert_eq!(quiet[0], mv("d1-e2"));
    assert_eq!(board.slow_enumerate_moves(Color::White).len(), 31);
}

#[test]
fn captures_are_ordered_by_target_square() {
    let board = bare(
        &[
            ("a1", Piece::WKing),
            ("h7", Piece::BKing),
            ("d4", Piece::WQueen),
            ("d7", Piece::BPawn),
            ("a4", Piece::BBishop),
            ("c3", Piece::WKnight),
        ],
        Color::White,
    );
    assert_eq!(board.slow_enumerate_captures(Color::White), mvs(&["c3-a4", "d4-a4", "d4-d7"]));
}

#[test]
fn moves_come_in_three_groups() {
    let board = bare(
        &[
            ("a1", Piece::WKing),
            ("h8", Piece::BKing),
            ("d4", Piece::WRook),
            ("d7", Piece::BPawn),
            ("h4", Piece::BKnight),
        ],
        Color::White,
    );
    let (checks, captures, other) = board.slow_enumerate_categories(Color::White);
    assert_eq!(checks, mvs(&["d4-h4"]));
    assert_eq!(captures, mvs(&["d4-d7"]));
    assert_eq!(other.len(), 3 + 11);
    assert!(other.contains(&mv("a1-b2")));
    assert!(other.contains(&mv("d4-d1")));
    let all = board.slow_enumerate_moves(Color::White);
    assert_eq!(all.len(), checks.len() + captures.len() + other.len());
}

#[test]
fn hopeful_order_puts_checks_first_then_captures_by_gain_then_the_rest_by_placement() {
    let board = bare(
        &[
            ("e1", Piece::WKing),
            ("h8", Piece::BKing),
            ("d4", Piece::WRook),
            ("d7", Piece::BPawn),
            ("h4", Piece::BKnight),
            ("b3", Piece::WPawn),
            ("a4", Piece::BQueen),
            ("c4", Piece::BRook),
        ],
        Color::White,
    );
    let moves = board.slow_enumerate_hopeful_order(Color::White);
    assert_eq!(moves[0], mv("d4-h4"));
    assert_eq!(&moves[1..5], &mvs(&["b3-a4", "b3-c4", "d4-c4", "d4-d7"])[..]);
    let all = board.slow_enumerate_moves(Color::White);
    assert_eq!(moves.len(), all.len());
    for m in &all {
        assert!(moves.contains(m));
    }
}

#[test]
fn hopeful_order_at_the_start_goes_by_placement() {
    let board = Board::default();
    let moves = board.slow_enumerate_hopeful_order(Color::White);
    assert_eq!(
        moves,
        mvs(&[
            "d2-d4", "e2-e4", "b1-c3", "g1-f3", "d2-d3", "e2-e3", "b1-a3", "g1-h3", "f2-f4", "a2-a3",
            "h2-h3", "a2-a4", "h2-h4", "f2-f3", "g2-g4", "b2-b4", "c2-c4", "g2-g3", "b2-b3", "c2-c3",
        ])
    );
}

#[test]
fn gains_of_single_moves() {
    let board = bare(
        &[("a1", Piece::WKing), ("h8", Piece::BKing), ("b3", Piece::WPawn), ("a4", Piece::BQueen), ("c4", Piece::BRook)],
        Color::White,
    );
    assert_eq!(board.mat_diff(&mv("b3-a4")), 9000);
    assert_eq!(board.mat_diff(&mv("b3-c4")), 4000);
    assert_eq!(board.mat_diff(&mv("b3-b4")), -1000);
    assert_eq!(board.mat_diff(&mv("a4-b3")), -9000);
    let start = Board::default();
    assert_eq!(start.happiness_diff(&mv("e2-e4"), 0), 90);
    assert_eq!(start.happiness_diff(&mv("b1-c3"), 0), 70);
    assert_eq!(start.happiness_diff(&mv("c2-c3"), 0), -25);
    assert_eq!(start.happiness_diff(&mv("b8-c6"), 0), 70);
    assert_eq!(start.happiness_diff(&mv("e1-d1"), 100), 0);
    assert_eq!(start.happiness_diff(&mv("e1-f1"), 0), 30);
}

#[test]
fn a_running_game_is_not_over() {
    assert_eq!(Board::default().game_over(), GameOver::NotOver);
}

#[test]
fn no_move_and_check_is_checkmate_of_the_side_to_move() {
    let mut board = Board::default();
    play(&mut board, &["f2-f3", "e7-e5", "g2-g4", "d8-h4"]);
    assert!(Board::in_check(&board.state, Color::White));
    assert_eq!(board.slow_enumerate_moves(Color::White).len(), 0);
    assert_eq!(board.game_over(), GameOver::Checkmate(Color::White));
    let back_rank = bare(
        &[("g8", Piece::BKing), ("f7", Piece::BPawn), ("g7", Piece::BPawn), ("h7", Piece::BPawn), ("a8", Piece::WRook), ("a1", Piece::WKing)],
        Color::Black,
    );
    assert_eq!(back_rank.game_over(), GameOver::Checkmate(Color::Black));
}

#[test]
fn no_move_and_no_check_is_a_draw() {
    let board = bare(&[("h8", Piece::BKing), ("g6", Piece::WQueen), ("f7", Piece::WKing)], Color::Black);
    assert!(!Board::in_check(&board.state, Color::Black));
    assert_eq!(board.slow_enumerate_moves(Color::Black).len(), 0);
    assert_eq!(board.game_over(), GameOver::Draw);
    let white_to_move = bare(&[("h8", Piece::BKing), ("g6", Piece::WQueen), ("f7", Piece::WKing)], Color::White);
    assert_eq!(white_to_move.game_over(), GameOver::NotOver);
}
