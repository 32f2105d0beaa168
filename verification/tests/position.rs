use chess1::board::{init_base, on_board, Board, InitialState, Move, Square, START_GRID};
use chess1::piece::{Color, Piece, PieceType, BKINGSIDE, BQUEENSIDE, WKINGSIDE, WQUEENSIDE};

fn sq(text: &str) -> Square {
    let b = text.as_bytes();
    Square { rank: b[1] - b'1', file: b[0] - b'a' }
}

fn mv(text: &str) -> Move {
    Move { from: sq(&text[0..2]), to: sq(&text[3..5]) }
}

fn bare(pieces: &[(&str, Piece)], active: Color) -> Board {
    let mut state = [[Piece::Empty; 8]; 8];
    for (name, piece) in pieces {
        let s = sq(name);
        state[s.rank as usize][s.file as usize] = *piece;
    }
    Board { state, history: vec![], castle_rights: 0, active_color: active, move_count: 0, en_passant: 8 }
}

fn play(board: &mut Board, moves: &[&str]) {
    for text in moves {
        let m = mv(text);
        assert!(board.check_move(m, board.active_color), "{} should be legal", text);
        board.make_move(m);
    }
}

#[test]
fn default_board_is_the_starting_position() {
    let board = Board::default();
    assert_eq!(board.state, START_GRID);
    assert_eq!(board.piece_at(sq("e1")), Piece::WKing);
    assert_eq!(board.piece_at(sq("d8")), Piece::BQueen);
    assert_eq!(board.piece_at(sq("a2")), Piece::WPawn);
    assert_eq!(board.piece_at(sq("h7")), Piece::BPawn);
    assert_eq!(board.piece_at(sq("e4")), Piece::Empty);
    assert_eq!(board.castle_rights, WQUEENSIDE | WKINGSIDE | BQUEENSIDE | BKINGSIDE);
    assert_eq!(board.active_color, Color::White);
    assert_eq!(board.move_count, 0);
    assert_eq!(board.en_passant, 8);
    assert!(board.history.is_empty());
}

#[test]
fn snapshot_of_the_start_matches_the_default_board() {
    let board = Board::default();
    let snapshot = board.freeze_init();
    let start = init_base();
    assert_eq!(snapshot.state, start.state);
    assert_eq!(snapshot.castle_rights, start.castle_rights);
    assert_eq!(snapshot.active_color, start.active_color);
    assert_eq!(snapshot.move_count, start.move_count);
    assert_eq!(snapshot.en_passant, start.en_passant);
}

#[test]
fn a_move_changes_its_two_squares_and_hands_the_turn_over() {
    let mut board = Board::default();
    board.make_move(mv("g1-f3"));
    assert_eq!(board.piece_at(sq("f3")), Piece::WKnight);
    assert_eq!(board.piece_at(sq("g1")), Piece::Empty);
    assert_eq!(board.active_color, Color::Black);
    assert_eq!(board.move_count, 1);
    assert_eq!(board.en_passant, 8);
    assert_eq!(board.history, vec![mv("g1-f3")]);
    assert_eq!(board.castle_rights, 15);
}

#[test]
fn make_move_push_can_leave_the_history_alone() {
    let mut board = Board::default();
    board.make_move_push(mv("g1-f3"), false);
    assert!(board.history.is_empty());
    assert_eq!(board.move_count, 1);
    assert_eq!(board.piece_at(sq("f3")), Piece::WKnight);
}

#[test]
fn a_double_step_of_either_side_opens_its_file_for_one_ply() {
    let mut board = Board::default();
    board.make_move(mv("e2-e4"));
    assert_eq!(board.en_passant, 4);
    board.make_move(mv("d7-d5"));
    assert_eq!(board.en_passant, 3);
    board.make_move(mv("e4-e5"));
    assert_eq!(board.en_passant, 8);
    board.make_move(mv("g8-f6"));
    assert_eq!(board.en_passant, 8);
}

#[test]
fn moving_king_or_rook_clears_castling_rights_for_good() {
    let mut board = Board::default();
    board.make_move(mv("h1-h3"));
    assert_eq!(board.castle_rights, 15 & !WKINGSIDE);
    board.make_move(mv("a8-a6"));
    assert_eq!(board.castle_rights, 15 & !WKINGSIDE & !BQUEENSIDE);
    board.make_move(mv("h3-h1"));
    assert_eq!(board.castle_rights, 15 & !WKINGSIDE & !BQUEENSIDE);
    board.make_move(mv("e8-e7"));
    assert_eq!(board.castle_rights, WQUEENSIDE);
    board.make_move(mv("e1-e2"));
    assert_eq!(board.castle_rights, 0);
}

#[test]
fn castling_moves_the_rook_as_well() {
    let mut board = bare(&[("e1", Piece::WKing), ("h1", Piece::WRook), ("a1", Piece::WRook), ("e8", Piece::BKing)], Color::White);
    board.castle_rights = 15;
    let mut long = board.freeze();
    board.make_move(mv("e1-g1"));
    assert_eq!(board.piece_at(sq("g1")), Piece::WKing);
    assert_eq!(board.piece_at(sq("f1")), Piece::WRook);
    assert_eq!(board.piece_at(sq("h1")), Piece::Empty);
    assert_eq!(board.piece_at(sq("e1")), Piece::Empty);
    assert_eq!(board.piece_at(sq("a1")), Piece::WRook);
    long.make_move(mv("e1-c1"));
    assert_eq!(long.piece_at(sq("c1")), Piece::WKing);
    assert_eq!(long.piece_at(sq("d1")), Piece::WRook);
    assert_eq!(long.piece_at(sq("a1")), Piece::Empty);
    assert_eq!(long.piece_at(sq("h1")), Piece::WRook);
}

#[test]
fn black_castling_moves_the_black_rook() {
    let mut board = bare(&[("e1", Piece::WKing), ("h8", Piece::BRook), ("a8", Piece::BRook), ("e8", Piece::BKing)], Color::Black);
    board.castle_rights = 15;
    let mut long = board.freeze();
    board.make_move(mv("e8-g8"));
    assert_eq!(board.piece_at(sq("g8")), Piece::BKing);
    assert_eq!(board.piece_at(sq("f8")), Piece::BRook);
    assert_eq!(board.piece_at(sq("h8")), Piece::Empty);
    long.make_move(mv("e8-c8"));
    assert_eq!(long.piece_at(sq("c8")), Piece::BKing);
    assert_eq!(long.piece_at(sq("d8")), Piece::BRook);
    assert_eq!(long.piece_at(sq("a8")), Piece::Empty);
}

#[test]
fn a_pawn_on_the_last_rank_becomes_a_queen() {
    let mut board = bare(&[("a7", Piece::WPawn), ("h2", Piece::BPawn), ("e1", Piece::WKing), ("e8", Piece::BKing)], Color::White);
    board.make_move(mv("a7-a8"));
    assert_eq!(board.piece_at(sq("a8")), Piece::WQueen);
    assert_eq!(board.piece_at(sq("a7")), Piece::Empty);
    board.make_move(mv("h2-h1"));
    assert_eq!(board.piece_at(sq("h1")), Piece::BQueen);
}

#[test]
fn capture_in_passing_removes_the_pawn_that_was_passed() {
    let mut board = Board::default();
    play(&mut board, &["e2-e4", "a7-a6", "e4-e5", "d7-d5"]);
    assert_eq!(board.en_passant, 3);
    assert!(board.check_move(mv("e5-d6"), Color::White));
    board.make_move(mv("e5-d6"));
    assert_eq!(board.piece_at(sq("d6")), Piece::WPawn);
    assert_eq!(board.piece_at(sq("d5")), Piece::Empty);
    assert_eq!(board.piece_at(sq("e5")), Piece::Empty);
}

#[test]
fn side_effects_return_the_arriving_piece() {
    let mut grid = START_GRID;
    let piece = Board::check_for_side_effects(&mut grid, &mv("b1-c3"));
    assert_eq!(piece, Piece::WKnight);
    assert_eq!(grid, START_GRID);
    let mut grid = [[Piece::Empty; 8]; 8];
    grid[6][2] = Piece::WPawn;
    assert_eq!(Board::check_for_side_effects(&mut grid, &mv("c7-c8")), Piece::WQueen);
    let mut grid = [[Piece::Empty; 8]; 8];
    grid[4][4] = Piece::WPawn;
    grid[4][3] = Piece::BPawn;
    assert_eq!(Board::check_for_side_effects(&mut grid, &mv("e5-d6")), Piece::WPawn);
    assert_eq!(grid[4][3], Piece::Empty);
    assert_eq!(grid[4][4], Piece::WPawn);
}

#[test]
fn undo_after_a_move_restores_the_position_exactly() {
    let mut board = Board::default();
    play(&mut board, &["e2-e4", "d7-d5", "g1-f3", "e8-d7"]);
    let state = board.state;
    let rights = board.castle_rights;
    let passing = board.en_passant;
    let active = board.active_color;
    let count = board.move_count;
    let history = board.history.clone();
    for text in ["e4-d5", "b1-c3", "e1-e2", "f1-b5", "h1-g1"] {
        let m = mv(text);
        assert!(board.check_move(m, board.active_color));
        board.make_move(m);
        board.undo(&init_base());
        assert_eq!(board.state, state);
        assert_eq!(board.castle_rights, rights);
        assert_eq!(board.en_passant, passing);
        assert_eq!(board.active_color, active);
        assert_eq!(board.move_count, count);
        assert_eq!(board.history, history);
    }
}

#[test]
fn undo_restores_the_file_open_to_capture_in_passing() {
    let mut board = Board::default();
    play(&mut board, &["e2-e4", "a7-a6", "e4-e5", "d7-d5"]);
    board.make_move(mv("e5-d6"));
    board.undo(&init_base());
    assert_eq!(board.en_passant, 3);
    assert_eq!(board.piece_at(sq("d5")), Piece::BPawn);
    assert_eq!(board.piece_at(sq("e5")), Piece::WPawn);
    assert_eq!(board.piece_at(sq("d6")), Piece::Empty);
    assert!(board.check_move(mv("e5-d6"), Color::White));
}

#[test]
fn undo_on_a_frozen_board_returns_to_its_snapshot() {
    let mut board = Board::default();
    play(&mut board, &["e2-e4", "e7-e5"]);
    let mut frozen = board.freeze();
    let snapshot: InitialState = board.freeze_init();
    assert!(frozen.history.is_empty());
    frozen.make_move(mv("g1-f3"));
    frozen.make_move(mv("b8-c6"));
    frozen.undo(&snapshot);
    assert_eq!(frozen.history, vec![mv("g1-f3")]);
    assert_eq!(frozen.piece_at(sq("c6")), Piece::Empty);
    assert_eq!(frozen.piece_at(sq("f3")), Piece::WKnight);
    assert_eq!(frozen.move_count, 3);
    frozen.undo(&snapshot);
    assert_eq!(frozen.state, board.state);
    assert_eq!(frozen.move_count, 2);
    assert_eq!(frozen.active_color, Color::White);
    frozen.undo(&snapshot);
    assert_eq!(frozen.state, board.state);
    assert!(frozen.history.is_empty());
}

#[test]
fn pieces_know_their_colour_kind_and_figurine() {
    assert_eq!(Piece::WQueen.color(), Color::White);
    assert_eq!(Piece::BPawn.color(), Color::Black);
    assert_eq!(Piece::Empty.color(), Color::Neither);
    assert_eq!(Piece::BKnight.piece_type(), PieceType::Knight);
    assert_eq!(Piece::Empty.piece_type(), PieceType::Empty);
    assert_eq!(Piece::WKing.char(), "♔");
    assert_eq!(Piece::BPawn.char(), "♟");
    assert_eq!(Piece::Empty.char(), ".");
    assert_eq!(Piece::BRook.symbol(), '♜');
    assert_eq!(PieceType::Rook.of_color(Color::Black), Piece::BRook);
    assert_eq!(PieceType::Rook.of_color(Color::Neither), Piece::Empty);
    assert_eq!(PieceType::Empty.of_color(Color::White), Piece::Empty);
    assert_eq!(Color::White.switch(), Color::Black);
    assert_eq!(Color::Black.switch(), Color::White);
    assert_eq!(Color::White.inf(), 1);
    assert_eq!(Color::Black.inf(), -1);
    assert_eq!(Color::Neither.inf(), 0);
}

#[test]
fn on_board_accepts_the_64_squares_only() {
    assert!(on_board([0, 0]));
    assert!(on_board([7, 7]));
    assert!(!on_board([8, 0]));
    assert!(!on_board([0, 8]));
    assert!(!on_board([-1, 3]));
    assert!(!on_board([3, -1]));
}

#[test]
fn a_rook_taken_at_home_takes_its_castling_right_with_it() {
    let mut board = bare(
        &[("e1", Piece::WKing), ("h1", Piece::WRook), ("e8", Piece::BKing), ("h8", Piece::BRook)],
        Color::Black,
    );
    board.castle_rights = 15;
    board.make_move_push(mv("h8-h1"), true);
    assert_eq!(board.castle_rights, 5);
    assert_eq!(board.castle_rights, WQUEENSIDE | BQUEENSIDE);
    let mut other = bare(
        &[("e1", Piece::WKing), ("a1", Piece::WRook), ("e8", Piece::BKing), ("a8", Piece::BRook)],
        Color::White,
    );
    other.castle_rights = 15;
    other.make_move(mv("a1-a8"));
    assert_eq!(other.castle_rights, WKINGSIDE | BKINGSIDE);
}

#[test]
fn no_move_sets_a_castling_right() {
    let mut board = Board::default();
    board.castle_rights = 6;
    for text in ["e2-e4", "a8-a6", "h1-h3", "e8-e7", "a1-b1", "h8-h1"] {
        let before = board.castle_rights;
        board.make_move(mv(text));
        assert_eq!(board.castle_rights & !before, 0);
    }
    assert_eq!(board.castle_rights, 0);
}
