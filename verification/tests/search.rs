use chess1::board::{Board, Move, Square};
use chess1::piece::{Color, Piece};

fn sq(text: &str) -> Square {
    let b = text.as_bytes();
    Square { rank: b[1] - b'1', file: b[0] - b'a' }
}

fn mv(text: &str) -> Move {
    Move { from: sq(&text[0..2]), to: sq(&text[3..5]) }
}

fn bare(pieces: &[(&str, Piece)], active: Color) -> Board {
    let mut state = [[Piece::Empty; 8]; 8];
    for (name, piece) in pieces {
        let s = sq(name);
        state[s.rank as usize][s.file as usize] = *piece;
    }
    Board { state, history: vec![], castle_rights: 0, active_color: active, move_count: 0, en_passant: 8 }
}

fn before_the_mate() -> Board {
    let mut board = Board::default();
    for text in ["f2-f3", "e7-e5", "g2-g4"] {
        let m = mv(text);
        assert!(board.check_move(m, board.active_color));
        board.make_move(m);
    }
    board
}

#[test]
fn search_finds_the_mate_after_f3_e5_g4_at_depth_one() {
    let mut board = before_the_mate();
    let state = board.state;
    assert_eq!(board.abq_suggest_move_depth(1), mv("d8-h4"));
    assert_eq!(board.state, state);
    assert_eq!(board.history.len(), 3);
    assert_eq!(board.move_count, 3);
    assert_eq!(board.active_color, Color::Black);
}

#[test]
fn search_finds_the_mate_after_f3_e5_g4_at_depth_two() {
    let mut board = before_the_mate();
    assert_eq!(board.abq_suggest_move_depth(2), mv("d8-h4"));
}

#[test]
fn search_finds_the_mate_after_f3_e5_g4_without_looking_further() {
    let mut board = before_the_mate();
    assert_eq!(board.abq_suggest_move_depth(0), mv("d8-h4"));
}

#[test]
fn search_finds_the_mate_after_f3_e5_g4_at_greater_depths() {
    let mut board = before_the_mate();
    assert_eq!(board.abq_suggest_move(), mv("d8-h4"));
    assert_eq!(board.abq_suggest_move_depth(4), mv("d8-h4"));
    assert_eq!(board.abq_suggest_move_depth(5), mv("d8-h4"));
}

#[test]
fn search_on_a_budget_finds_the_mate_too() {
    let board = before_the_mate();
    assert_eq!(board.choose_by_minmax(9), mv("d8-h4"));
    assert_eq!(board.choose_by_minmax(10), mv("d8-h4"));
    assert_eq!(board.suggest_move(), mv("d8-h4"));
}

#[test]
fn a_search_three_plies_deep_from_the_start_gives_a_legal_move() {
    let mut board = Board::default();
    let first = board.abq_suggest_move();
    assert!(board.check_move(first, Color::White));
    assert_eq!(board.state, Board::default().state);
    assert!(board.history.is_empty());
}

#[test]
fn white_mates_on_the_back_rank() {
    let mut board = bare(
        &[("g8", Piece::BKing), ("f7", Piece::BPawn), ("g7", Piece::BPawn), ("h7", Piece::BPawn), ("a1", Piece::WRook), ("g1", Piece::WKing)],
        Color::White,
    );
    assert_eq!(board.abq_suggest_move_depth(1), mv("a1-a8"));
    assert_eq!(board.abq_suggest_move(), mv("a1-a8"));
    assert_eq!(board.choose_by_minmax(9), mv("a1-a8"));
}

#[test]
fn the_search_takes_a_queen_that_hangs() {
    let mut board = bare(
        &[("a1", Piece::WKing), ("h8", Piece::BKing), ("d4", Piece::WRook), ("d7", Piece::BQueen), ("a7", Piece::BPawn)],
        Color::White,
    );
    assert_eq!(board.abq_suggest_move_depth(0), mv("d4-d7"));
    assert_eq!(board.abq_suggest_move_depth(1), mv("d4-d7"));
}

#[test]
fn the_suggested_move_is_legal() {
    let mut board = Board::default();
    let first = board.abq_suggest_move_depth(0);
    assert!(board.check_move(first, Color::White));
    board.make_move(mv("e2-e4"));
    let reply = board.abq_suggest_move_depth(1);
    assert!(board.check_move(reply, Color::Black));
    let budget = board.choose_by_minmax(3);
    assert!(board.check_move(budget, Color::Black));
}

#[test]
fn a_side_without_a_move_is_given_a_move_off_the_board() {
    let board = bare(&[("h8", Piece::BKing), ("g6", Piece::WQueen), ("f7", Piece::WKing)], Color::Black);
    let none = board.choose_by_minmax(9);
    assert_eq!(none, Move { from: Square { rank: 9, file: 9 }, to: Square { rank: 9, file: 9 } });
}

#[test]
fn the_value_of_a_move_on_a_budget() {
    let board = before_the_mate();
    let mut copy = board.freeze();
    assert_eq!(copy.minmax_eval(mv("d8-h4"), Color::Black, 20), i16::MIN);
    assert_eq!(copy.piece_at(sq("h4")), Piece::BQueen);
    assert_eq!(copy.history, vec![mv("d8-h4")]);
    let mut copy = board.freeze();
    assert_eq!(copy.minmax_eval(mv("d8-h4"), Color::Black, 0), -32768);
    let mut copy = Board::default();
    assert_eq!(copy.minmax_eval(mv("e2-e4"), Color::White, 0), copy.rough_analysis());
    let mut mated = bare(
        &[("g8", Piece::BKing), ("f7", Piece::BPawn), ("g7", Piece::BPawn), ("h7", Piece::BPawn), ("a1", Piece::WRook), ("g1", Piece::WKing)],
        Color::White,
    );
    assert_eq!(mated.minmax_eval(mv("a1-a8"), Color::White, 20), i16::MAX);
}

#[test]
fn the_value_of_a_position_within_a_window() {
    let board = before_the_mate();
    let snapshot = board.freeze_init();
    let mut mated = board.freeze();
    mated.make_move(mv("d8-h4"));
    assert_eq!(mated.minmax_max_q(3, i32::MIN, i32::MAX, &snapshot), i32::MIN);
    assert_eq!(mated.minmax_max_q(3, 5, 5, &snapshot), i32::MIN);
    assert_eq!(mated.minmax_min_q(3, 5, 5, &snapshot), i32::MAX);
    assert_eq!(mated.history, vec![mv("d8-h4")]);
    let mut start = Board::default();
    let init = start.freeze_init();
    assert_eq!(start.minmax_max_q(0, i32::MIN, i32::MAX, &init), 0);
    assert!(start.can_null_move());
    assert!(!mated.can_null_move());
    let stalemate = bare(&[("h8", Piece::BKing), ("g6", Piece::WQueen), ("f7", Piece::WKing)], Color::Black);
    let mut frozen = stalemate.freeze();
    let snap = stalemate.freeze_init();
    assert_eq!(frozen.minmax_min_q(2, i32::MIN, i32::MAX, &snap), 0);
}

#[test]
fn the_search_on_a_budget_tells_when_its_numbers_do_not_fit() {
    let board = before_the_mate();
    assert_eq!(board.try_choose_by_minmax(9), Some(mv("d8-h4")));
    assert_eq!(board.try_choose_by_minmax(10), Some(mv("d8-h4")));
    assert!(board.search_stays_small(mv("d8-h4"), Color::Black, 20));
    assert!(board.search_stays_small(mv("a7-a6"), Color::Black, 10));
    let mut copy = board.freeze();
    assert_eq!(copy.try_minmax_eval(mv("d8-h4"), Color::Black, 0), Some(i16::MIN));
    assert_eq!(copy.piece_at(sq("h4")), Piece::BQueen);
    assert_eq!(Board::default().try_rough_analysis(), Some(0));
    let mut state = [[Piece::WQueen; 8]; 8];
    state[0][0] = Piece::WKing;
    state[7][7] = Piece::BKing;
    let heavy = Board { state, history: vec![], castle_rights: 0, active_color: Color::Black, move_count: 0, en_passant: 8 };
    assert_eq!(heavy.try_rough_analysis(), None);
    assert!(!heavy.search_stays_small(mv("h8-h7"), Color::Black, 0));
    let mut copy = heavy.freeze();
    assert_eq!(copy.try_minmax_eval(mv("h8-h7"), Color::Black, 0), None);
    assert_eq!(copy.state, heavy.state);
    let mut state = [[Piece::WQueen; 8]; 8];
    state[0][4] = Piece::WKing;
    state[6] = [Piece::BPawn; 8];
    state[7] = [Piece::Empty; 8];
    state[7][4] = Piece::BKing;
    let crowded = Board { state, history: vec![], castle_rights: 0, active_color: Color::Black, move_count: 0, en_passant: 8 };
    assert!(!Board::in_check(&crowded.state, Color::Black));
    assert!(crowded.slow_enumerate_moves(Color::Black).len() > 0);
    assert_eq!(crowded.try_choose_by_minmax(0), None);
    assert_eq!(crowded.try_suggest_move(), None);
}

#[test]
fn the_budget_of_twenty_finds_the_mate_when_asked_with_a_test() {
    let board = before_the_mate();
    assert_eq!(board.try_suggest_move(), Some(mv("d8-h4")));
}
