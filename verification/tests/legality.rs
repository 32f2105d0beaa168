use chess1::board::{Board, Move, Square};
use chess1::legality::distance;
use chess1::piece::{Color, Piece};

fn sq(text: &str) -> Square {
    let b = text.as_bytes();
    Square { rank: b[1] - b'1', file: b[0] - b'a' }
}

fn mv(text: &str) -> Move {
    Move { from: sq(&text[0..2]), to: sq(&text[3..5]) }
}

fn bare(pieces: &[(&str, Piece)], active: Color) -> Board {
    let mut state = [[Piece::Empty; 8]; 8];
    for (name, piece) in pieces {
        let s = sq(name);
        state[s.rank as usize][s.file as usize] = *piece;
    }
    Board { state, history: vec![], castle_rights: 0, active_color: active, move_count: 0, en_passant: 8 }
}

fn play(board: &mut Board, moves: &[&str]) {
    for text in moves {
        let m = mv(text);
        assert!(board.check_move(m, board.active_color), "{} should be legal", text);
        board.make_move(m);
    }
}

#[test]
fn basic_refusals() {
    let board = Board::default();
    assert!(!board.check_move(mv("e2-e2"), Color::White));
    assert!(!board.check_move(mv("e7-e5"), Color::White));
    assert!(!board.check_move(mv("e4-e5"), Color::White));
    assert!(!board.check_move(mv("a1-a2"), Color::White));
    assert!(!board.check_move(mv("e2-e4"), Color::Neither));
    assert!(board.check_move(mv("e2-e4"), Color::White));
    assert!(board.check_move(mv("e7-e5"), Color::Black));
}

#[test]
fn shapes_of_the_pieces() {
    let board = bare(
        &[
            ("a1", Piece::WKing),
            ("h8", Piece::BKing),
            ("d4", Piece::WQueen),
            ("b2", Piece::WKnight),
            ("g2", Piece::WBishop),
            ("h1", Piece::WRook),
            ("d6", Piece::BPawn),
        ],
        Color::White,
    );
    assert!(board.check_move(mv("d4-d5"), Color::White));
    assert!(board.check_move(mv("d4-d6"), Color::White));
    assert!(!board.check_move(mv("d4-d7"), Color::White));
    assert!(board.check_move(mv("d4-a7"), Color::White));
    assert!(board.check_move(mv("d4-h4"), Color::White));
    assert!(!board.check_move(mv("d4-e6"), Color::White));
    assert!(board.check_move(mv("b2-c4"), Color::White));
    assert!(board.check_move(mv("b2-d1"), Color::White));
    assert!(!board.check_move(mv("b2-b4"), Color::White));
    assert!(board.check_move(mv("g2-a8"), Color::White));
    assert!(!board.check_move(mv("g2-g4"), Color::White));
    assert!(board.check_move(mv("h1-h7"), Color::White));
    assert!(!board.check_move(mv("h1-f3"), Color::White));
    assert!(board.check_move(mv("a1-a2"), Color::White));
    assert!(board.check_move(mv("a1-b1"), Color::White));
    assert!(!board.check_move(mv("a1-a3"), Color::White));
    assert!(!board.check_move(mv("a1-b2"), Color::White));
}

#[test]
fn pawn_moves() {
    let board = bare(
        &[
            ("e1", Piece::WKing),
            ("e8", Piece::BKing),
            ("a2", Piece::WPawn),
            ("b2", Piece::WPawn),
            ("b3", Piece::BKnight),
            ("c2", Piece::WPawn),
            ("c4", Piece::BKnight),
            ("h3", Piece::WPawn),
            ("g7", Piece::BPawn),
            ("h6", Piece::WKnight),
        ],
        Color::White,
    );
    assert!(board.check_move(mv("a2-a3"), Color::White));
    assert!(board.check_move(mv("a2-a4"), Color::White));
    assert!(board.check_move(mv("a2-b3"), Color::White));
    assert!(!board.check_move(mv("a2-a5"), Color::White));
    assert!(!board.check_move(mv("b2-b3"), Color::White));
    assert!(!board.check_move(mv("b2-b4"), Color::White));
    assert!(board.check_move(mv("c2-c3"), Color::White));
    assert!(!board.check_move(mv("c2-c4"), Color::White));
    assert!(board.check_move(mv("c2-b3"), Color::White));
    assert!(!board.check_move(mv("c2-d3"), Color::White));
    assert!(board.check_move(mv("h3-h4"), Color::White));
    assert!(!board.check_move(mv("h3-h5"), Color::White));
    assert!(!board.check_move(mv("h3-h2"), Color::White));
    assert!(board.check_move(mv("g7-g6"), Color::Black));
    assert!(board.check_move(mv("g7-g5"), Color::Black));
    assert!(board.check_move(mv("g7-h6"), Color::Black));
    assert!(!board.check_move(mv("g7-f6"), Color::Black));
    assert!(!board.check_move(mv("g7-g8"), Color::Black));
}

#[test]
fn a_move_that_leaves_the_king_attacked_is_illegal() {
    let pinned = bare(
        &[("e1", Piece::WKing), ("e2", Piece::WRook), ("e8", Piece::BRook), ("a8", Piece::BKing)],
        Color::White,
    );
    assert!(!pinned.check_move(mv("e2-d2"), Color::White));
    assert!(pinned.check_move(mv("e2-e5"), Color::White));
    assert!(pinned.check_move(mv("e2-e8"), Color::White));
    assert!(!pinned.check_move(mv("e1-e2"), Color::White));
    let guarded = bare(
        &[("e1", Piece::WKing), ("d8", Piece::BRook), ("a8", Piece::BKing)],
        Color::White,
    );
    assert!(!guarded.check_move(mv("e1-d1"), Color::White));
    assert!(!guarded.check_move(mv("e1-d2"), Color::White));
    assert!(guarded.check_move(mv("e1-e2"), Color::White));
    assert!(guarded.check_move(mv("e1-f1"), Color::White));
    for r in 0u8..8 {
        for f in 0u8..8 {
            let m = Move { from: sq("e2"), to: Square { rank: r, file: f } };
            if pinned.check_move(m, Color::White) {
                let after = pinned.simulate(m);
                assert!(!Board::in_check(&after, Color::White));
            }
        }
    }
}

#[test]
fn check_must_be_answered() {
    let board = bare(
        &[("e1", Piece::WKing), ("e8", Piece::BRook), ("b8", Piece::BKing), ("a2", Piece::WRook), ("h5", Piece::WBishop)],
        Color::White,
    );
    assert!(Board::in_check(&board.state, Color::White));
    assert!(!Board::in_check(&board.state, Color::Black));
    assert!(!board.check_move(mv("a2-a3"), Color::White));
    assert!(board.check_move(mv("a2-e2"), Color::White));
    assert!(board.check_move(mv("h5-e8"), Color::White));
    assert!(board.check_move(mv("h5-e2"), Color::White));
    assert!(board.check_move(mv("e1-d1"), Color::White));
    assert!(!board.check_move(mv("e1-e2"), Color::White));
    assert!(!board.leaves_king_safe(mv("a2-a3"), Color::White));
    assert!(board.leaves_king_safe(mv("a2-e2"), Color::White));
}

#[test]
fn a_side_without_a_king_is_not_in_check() {
    let board = bare(&[("e8", Piece::BRook), ("a8", Piece::BKing)], Color::White);
    assert!(!Board::in_check(&board.state, Color::White));
}

fn castling_position() -> Board {
    let mut board = bare(
        &[
            ("e1", Piece::WKing),
            ("h1", Piece::WRook),
            ("a1", Piece::WRook),
            ("e8", Piece::BKing),
            ("h8", Piece::BRook),
            ("a8", Piece::BRook),
        ],
        Color::White,
    );
    board.castle_rights = 15;
    board
}

#[test]
fn castling_is_legal_when_nothing_speaks_against_it() {
    let board = castling_position();
    assert!(board.check_move(mv("e1-g1"), Color::White));
    assert!(board.check_move(mv("e1-c1"), Color::White));
    assert!(board.check_move(mv("e8-g8"), Color::Black));
    assert!(board.check_move(mv("e8-c8"), Color::Black));
    assert!(board.castle_check(mv("e1-g1"), Color::White));
    assert!(!board.castle_check(mv("e1-g1"), Color::Black));
    assert!(!board.castle_check(mv("e1-f1"), Color::White));
    assert!(!board.check_move(mv("e1-g2"), Color::White));
    assert!(!board.check_move(mv("e1-h1"), Color::White));
}

#[test]
fn castling_needs_the_right() {
    let mut board = castling_position();
    board.castle_rights = 15 & !2;
    assert!(!board.check_move(mv("e1-g1"), Color::White));
    assert!(board.check_move(mv("e1-c1"), Color::White));
    board.castle_rights = 15 & !1;
    assert!(board.check_move(mv("e1-g1"), Color::White));
    assert!(!board.check_move(mv("e1-c1"), Color::White));
    board.castle_rights = 3;
    assert!(!board.check_move(mv("e8-g8"), Color::Black));
    assert!(!board.check_move(mv("e8-c8"), Color::Black));
}

#[test]
fn castling_needs_empty_squares_between_king_and_rook() {
    let mut board = castling_position();
    board.state[0][1] = Piece::WKnight;
    assert!(!board.check_move(mv("e1-c1"), Color::White));
    assert!(board.check_move(mv("e1-g1"), Color::White));
    board.state[0][1] = Piece::Empty;
    board.state[0][6] = Piece::BKnight;
    assert!(!board.check_move(mv("e1-g1"), Color::White));
    board.state[0][6] = Piece::Empty;
    board.state[0][5] = Piece::WBishop;
    assert!(!board.check_move(mv("e1-g1"), Color::White));
    board.state[0][5] = Piece::Empty;
    board.state[7][3] = Piece::BQueen;
    assert!(!board.check_move(mv("e8-c8"), Color::Black));
}

#[test]
fn castling_needs_unattacked_start_transit_and_end_squares() {
    let mut board = castling_position();
    board.state[5][4] = Piece::BRook;
    assert!(!board.check_move(mv("e1-g1"), Color::White));
    assert!(!board.check_move(mv("e1-c1"), Color::White));
    board.state[5][4] = Piece::Empty;
    board.state[5][5] = Piece::BRook;
    assert!(!board.check_move(mv("e1-g1"), Color::White));
    assert!(board.check_move(mv("e1-c1"), Color::White));
    board.state[5][5] = Piece::Empty;
    board.state[5][6] = Piece::BRook;
    assert!(!board.check_move(mv("e1-g1"), Color::White));
    board.state[5][6] = Piece::Empty;
    board.state[5][1] = Piece::BRook;
    assert!(board.check_move(mv("e1-c1"), Color::White));
    board.state[5][1] = Piece::Empty;
    board.state[5][3] = Piece::BRook;
    assert!(!board.check_move(mv("e1-c1"), Color::White));
}

#[test]
fn castling_needs_the_rook_at_home() {
    let mut board = castling_position();
    board.state[0][7] = Piece::Empty;
    assert!(!board.check_move(mv("e1-g1"), Color::White));
    board.state[0][7] = Piece::BRook;
    assert!(!board.check_move(mv("e1-g1"), Color::White));
}

#[test]
fn castling_stays_illegal_once_king_or_rook_has_moved() {
    let mut board = castling_position();
    play(&mut board, &["e1-e2", "e8-e7", "e2-e1", "e7-e8"]);
    assert!(!board.check_move(mv("e1-g1"), Color::White));
    assert!(!board.check_move(mv("e1-c1"), Color::White));
    assert!(!board.check_move(mv("e8-g8"), Color::Black));
    let mut board = castling_position();
    play(&mut board, &["h1-h2", "a8-a7", "h2-h1", "a7-a8"]);
    assert!(!board.check_move(mv("e1-g1"), Color::White));
    assert!(board.check_move(mv("e1-c1"), Color::White));
    assert!(board.check_move(mv("e8-g8"), Color::Black));
    assert!(!board.check_move(mv("e8-c8"), Color::Black));
}

#[test]
fn capture_in_passing_is_legal_for_one_ply_only() {
    let mut board = Board::default();
    play(&mut board, &["e2-e4", "a7-a6", "e4-e5", "d7-d5"]);
    assert!(board.check_move(mv("e5-d6"), Color::White));
    assert!(!board.check_move(mv("e5-f6"), Color::White));
    play(&mut board, &["h2-h3", "h7-h6"]);
    assert!(!board.check_move(mv("e5-d6"), Color::White));
}

#[test]
fn black_captures_in_passing_too() {
    let mut board = Board::default();
    play(&mut board, &["a2-a3", "d7-d5", "a3-a4", "d5-d4", "e2-e4"]);
    assert_eq!(board.en_passant, 4);
    assert!(board.check_move(mv("d4-e3"), Color::Black));
    assert!(!board.check_move(mv("d4-c3"), Color::Black));
    board.make_move(mv("d4-e3"));
    assert_eq!(board.piece_at(sq("e3")), Piece::BPawn);
    assert_eq!(board.piece_at(sq("e4")), Piece::Empty);
    let mut later = Board::default();
    play(&mut later, &["a2-a3", "d7-d5", "a3-a4", "d5-d4", "e2-e4", "h7-h6", "h2-h3"]);
    assert!(!later.check_move(mv("d4-e3"), Color::Black));
}

#[test]
fn no_capture_in_passing_without_the_double_step() {
    let mut board = Board::default();
    play(&mut board, &["e2-e4", "d7-d6", "e4-e5", "d6-d5"]);
    assert_eq!(board.en_passant, 8);
    assert!(!board.check_move(mv("e5-d6"), Color::White));
}

#[test]
fn paths_must_be_clear() {
    let board = Board::default();
    assert!(!board.check_move(mv("a1-a3"), Color::White));
    assert!(!board.check_move(mv("c1-e3"), Color::White));
    assert!(!board.check_move(mv("d1-d3"), Color::White));
    assert!(board.nothing_between(mv("a2-a7")));
    assert!(!board.nothing_between(mv("a1-a8")));
    assert!(board.nothing_between(mv("a3-f3")));
    assert!(board.nothing_between(mv("h3-c8").clone()) == false);
    assert!(board.nothing_between(mv("a3-e7")));
    assert!(board.nothing_between(mv("b1-c1")));
}

#[test]
fn squares_attacked() {
    let board = bare(
        &[
            ("a1", Piece::WKing),
            ("h8", Piece::BKing),
            ("d4", Piece::WRook),
            ("f6", Piece::BBishop),
            ("c2", Piece::WPawn),
            ("g3", Piece::BKnight),
            ("b7", Piece::BPawn),
        ],
        Color::White,
    );
    let g = &board.state;
    assert!(Board::under_attack_by(g, Color::White, sq("d8")));
    assert!(Board::under_attack_by(g, Color::White, sq("a4")));
    assert!(Board::under_attack_by(g, Color::White, sq("b3")));
    assert!(Board::under_attack_by(g, Color::White, sq("d3")));
    assert!(!Board::under_attack_by(g, Color::White, sq("c3")));
    assert!(Board::under_attack_by(g, Color::White, sq("b2")));
    assert!(Board::under_attack_by(g, Color::White, sq("b1")));
    assert!(!Board::under_attack_by(g, Color::White, sq("c1")));
    assert!(!Board::under_attack_by(g, Color::White, sq("e5")));
    assert!(Board::under_attack_by(g, Color::Black, sq("e5")));
    assert!(Board::under_attack_by(g, Color::Black, sq("d4")));
    assert!(!Board::under_attack_by(g, Color::Black, sq("c3")));
    assert!(Board::under_attack_by(g, Color::Black, sq("h1")));
    assert!(Board::under_attack_by(g, Color::Black, sq("e2")));
    assert!(!Board::under_attack_by(g, Color::Black, sq("g4")));
    assert!(Board::under_attack_by(g, Color::Black, sq("a6")));
    assert!(Board::under_attack_by(g, Color::Black, sq("c6")));
    assert!(!Board::under_attack_by(g, Color::Black, sq("b6")));
    assert!(!Board::under_attack_by(g, Color::Black, sq("a8")));
    assert!(Board::under_attack_by(g, Color::Black, sq("g7")));
    assert!(!Board::under_attack_by(g, Color::Neither, sq("g7")));
}

#[test]
fn offsets_are_looked_at_one_by_one() {
    let board = bare(&[("d4", Piece::WRook), ("f3", Piece::BKnight)], Color::White);
    let g = &board.state;
    let straight = [[1, 0], [0, 1], [-1, 0], [0, -1]];
    let diagonal = [[1, 1], [-1, 1], [1, -1], [-1, -1]];
    assert!(Board::check_cont_offsets(g, straight, sq("d8"), chess1::piece::PieceType::Rook, Color::White));
    assert!(!Board::check_cont_offsets(g, diagonal, sq("d8"), chess1::piece::PieceType::Bishop, Color::White));
    assert!(!Board::check_cont_offsets(g, straight, sq("d8"), chess1::piece::PieceType::Rook, Color::Black));
    let jumps = [[2, 1], [1, 2], [-2, 1], [1, -2], [2, -1], [-1, 2], [-2, -1], [-1, -2]];
    assert!(Board::check_sing_offsets(g, &jumps, sq("e1"), chess1::piece::PieceType::Knight, Color::Black));
    assert!(!Board::check_sing_offsets(g, &jumps, sq("e2"), chess1::piece::PieceType::Knight, Color::Black));
}

#[test]
fn pawn_shape_by_colour() {
    let board = Board::default();
    assert!(board.valid_wpawn(mv("e2-e4")));
    assert!(board.valid_wpawn(mv("e2-e3")));
    assert!(!board.valid_wpawn(mv("e2-e5")));
    assert!(!board.valid_wpawn(mv("e2-d3")));
    assert!(board.valid_bpawn(mv("e7-e5")));
    assert!(board.valid_bpawn(mv("e7-e6")));
    assert!(!board.valid_bpawn(mv("e7-e8")));
}

#[test]
fn distance_between_coordinates() {
    assert_eq!(distance(3, 7), 4);
    assert_eq!(distance(7, 3), 4);
    assert_eq!(distance(5, 5), 0);
}

#[test]
fn castling_stays_illegal_once_the_rook_has_been_taken() {
    let mut board = bare(
        &[
            ("e1", Piece::WKing),
            ("h1", Piece::WRook),
            ("g3", Piece::WRook),
            ("e8", Piece::BKing),
            ("h8", Piece::BRook),
        ],
        Color::Black,
    );
    board.castle_rights = 15;
    play(&mut board, &["h8-h1", "g3-g1", "e8-e7", "g1-h1", "e7-e8"]);
    assert_eq!(board.piece_at(sq("h1")), Piece::WRook);
    assert_eq!(board.piece_at(sq("e1")), Piece::WKing);
    assert_eq!(board.piece_at(sq("f1")), Piece::Empty);
    assert_eq!(board.piece_at(sq("g1")), Piece::Empty);
    assert!(!Board::under_attack_by(&board.state, Color::Black, sq("e1")));
    assert!(!board.check_move(mv("e1-g1"), Color::White));
    assert!(board.check_move(mv("e1-f1"), Color::White));
}
