use chess1::board::{Board, Move, Square, START_GRID};
use chess1::heuristics::endgame_reached::in_endgame;
use chess1::heuristics::influence::{
    graded_of, influence_coeff, influence_grid, influence_of_side, populate_diag_offsets, try_influence_grid,
    populate_orth_offsets, populate_sing_offsets, spread_piece, spread_ray, spread_rays, weight_of,
    Weighting,
};
use chess1::heuristics::material_count::material_count;
use chess1::heuristics::movability::{
    black_pawn_movab, movabilities, movability_coeff, tally_cont_movab, tally_sing_movab, white_pawn_movab,
};
use chess1::heuristics::piece_square_tables::{pst_analysis, pst_board};
use chess1::heuristics::smart_influence::{
    populate_diag_offsets_sm, populate_orth_offsets_sm, populate_sing_offsets_sm, smart_influence_grid,
    smart_influence_grid_double, sminf_coeff,
};
use chess1::heuristics::tensity::{
    remove_cheapest_attacker, tension_against_color, tension_board, tensions, threat_value, total_tension,
    Attack,
};
use chess1::piece::{Color, Piece};
use chess1::sums::div_toward_zero;

fn sq(text: &str) -> Square {
    let b = text.as_bytes();
    Square { rank: b[1] - b'1', file: b[0] - b'a' }
}

fn mv(text: &str) -> Move {
    Move { from: sq(&text[0..2]), to: sq(&text[3..5]) }
}

fn grid(pieces: &[(&str, Piece)]) -> [[Piece; 8]; 8] {
    let mut state = [[Piece::Empty; 8]; 8];
    for (name, piece) in pieces {
        let s = sq(name);
        state[s.rank as usize][s.file as usize] = *piece;
    }
    state
}

fn bare(pieces: &[(&str, Piece)], active: Color) -> Board {
    Board { state: grid(pieces), history: vec![], castle_rights: 0, active_color: active, move_count: 0, en_passant: 8 }
}

fn after_e4() -> Board {
    let mut board = Board::default();
    board.make_move(mv("e2-e4"));
    board
}

fn hanging_queen() -> [[Piece; 8]; 8] {
    grid(&[
        ("a1", Piece::WKing),
        ("h8", Piece::BKing),
        ("d4", Piece::WQueen),
        ("c3", Piece::WPawn),
        ("e6", Piece::BKnight),
    ])
}

#[test]
fn worth_of_the_pieces() {
    assert_eq!(Piece::WPawn.material_eval_base(), 1000);
    assert_eq!(Piece::BKnight.material_eval_base(), 3000);
    assert_eq!(Piece::WBishop.material_eval_base(), 3050);
    assert_eq!(Piece::BRook.material_eval_base(), 5000);
    assert_eq!(Piece::WQueen.material_eval_base(), 10000);
    assert_eq!(Piece::BKing.material_eval_base(), 200000);
    assert_eq!(Piece::Empty.material_eval_base(), 0);
    assert_eq!(Piece::WPawn.material_eval(1, 0), 1000);
    assert_eq!(Piece::WPawn.material_eval(3, 0), 1100);
    assert_eq!(Piece::WPawn.material_eval(5, 0), 1300);
    assert_eq!(Piece::WPawn.material_eval(6, 0), 3000);
    assert_eq!(Piece::BPawn.material_eval(6, 0), 1000);
    assert_eq!(Piece::BPawn.material_eval(4, 0), 1100);
    assert_eq!(Piece::BPawn.material_eval(2, 0), 1300);
    assert_eq!(Piece::BPawn.material_eval(1, 0), 3000);
    assert_eq!(Piece::WQueen.material_eval(6, 0), 10000);
    assert_eq!(Piece::WQueen.rough_value(6), 10);
    assert_eq!(Piece::WPawn.rough_value(6), 3);
    assert_eq!(Piece::BPawn.rough_value(1), 3);
    assert_eq!(Piece::BPawn.rough_value(6), 1);
    assert_eq!(Piece::BKing.rough_value(0), 60);
}

#[test]
fn material_is_whites_less_blacks() {
    assert_eq!(material_count(&START_GRID), 0);
    assert_eq!(material_count(&after_e4().state), 100);
    assert_eq!(material_count(&hanging_queen()), 10000 + 1000 - 3000);
    assert_eq!(material_count(&grid(&[("a7", Piece::WPawn), ("b2", Piece::BPawn), ("c5", Piece::BRook)])), 3000 - 3000 - 5000);
    assert_eq!(Board::material_count(&START_GRID), 0);
    assert_eq!(Board::material_count(&hanging_queen()), 10 + 1 - 3);
    assert_eq!(Board::material_count(&grid(&[("a7", Piece::WPawn), ("b7", Piece::BPawn)])), 3 - 1);
}

#[test]
fn endgame_score_follows_the_officers_left() {
    assert_eq!(in_endgame(&START_GRID), 0);
    assert_eq!(in_endgame(&grid(&[("e1", Piece::WKing), ("e8", Piece::BKing), ("a2", Piece::WPawn)])), 100);
    assert_eq!(in_endgame(&grid(&[("d1", Piece::WQueen)])), 100);
    let white_officers = grid(&[
        ("a1", Piece::WRook),
        ("b1", Piece::WKnight),
        ("c1", Piece::WBishop),
        ("d1", Piece::WQueen),
        ("f1", Piece::WBishop),
        ("g1", Piece::WKnight),
        ("h1", Piece::WRook),
    ]);
    assert_eq!(in_endgame(&white_officers), 50);
    let mut fewer = START_GRID;
    fewer[0][3] = Piece::Empty;
    fewer[7][3] = Piece::Empty;
    assert_eq!(in_endgame(&fewer), 13);
}

#[test]
fn placement_by_table() {
    let c3 = sq("c3");
    assert_eq!(Piece::WKnight.happiness_at(c3, 0), 30);
    assert_eq!(Piece::BKnight.happiness_at(sq("c6"), 0), 30);
    assert_eq!(Piece::BKnight.happiness_at(c3, 0), 10);
    assert_eq!(Piece::WPawn.happiness_at(sq("e4"), 0), 40);
    assert_eq!(Piece::WPawn.happiness_at(sq("d2"), 70), -50);
    assert_eq!(Piece::WRook.happiness_at(sq("b7"), 0), 15);
    assert_eq!(Piece::WQueen.happiness_at(sq("a4"), 0), 0);
    assert_eq!(Piece::WBishop.happiness_at(sq("b3"), 0), 10);
    assert_eq!(Piece::Empty.happiness_at(c3, 0), 0);
    assert_eq!(Piece::WKing.happiness_at(sq("e1"), 0), 0);
    assert_eq!(Piece::WKing.happiness_at(sq("e1"), 100), -30);
    assert_eq!(Piece::WKing.happiness_at(sq("e1"), 50), -15);
    assert_eq!(Piece::WKing.happiness_at(sq("b1"), 33), 23);
    assert_eq!(Piece::WKing.happiness_at(sq("a3"), 33), -16);
    assert_eq!(Piece::BKing.happiness_at(sq("a6"), 33), -16);
}

#[test]
fn placement_score() {
    assert_eq!(pst_analysis(&START_GRID), 0);
    assert_eq!(pst_analysis(&after_e4().state), 90);
    let mut black_knight_out = START_GRID;
    black_knight_out[7][1] = Piece::Empty;
    black_knight_out[5][2] = Piece::BKnight;
    assert_eq!(pst_analysis(&black_knight_out), -70);
    let table = pst_board(&after_e4().state);
    assert_eq!(table[3][4], 40);
    assert_eq!(table[1][3], -50);
    assert_eq!(table[6][3], -50);
    assert_eq!(table[0][1], -40);
    assert_eq!(table[7][1], -40);
    assert_eq!(table[4][4], 0);
    let kings = grid(&[("a3", Piece::WKing), ("a6", Piece::BKing)]);
    assert_eq!(pst_board(&kings)[2][0], -30);
    assert_eq!(pst_board(&kings)[5][0], -30);
    assert_eq!(pst_analysis(&kings), 0);
}

#[test]
fn mobility_of_single_pieces() {
    let start = movabilities(&START_GRID);
    assert_eq!(start[0], [0, 2, 0, 0, 0, 0, 2, 0]);
    assert_eq!(start[1], [2; 8]);
    assert_eq!(start[2], [0; 8]);
    assert_eq!(start[6], [2; 8]);
    assert_eq!(start[7], [0, 2, 0, 0, 0, 0, 2, 0]);
    let open = after_e4();
    let m = movabilities(&open.state);
    assert_eq!(m[3][4], 1);
    assert_eq!(m[0][5], 5);
    assert_eq!(m[0][3], 4);
    assert_eq!(m[0][4], 1);
    assert_eq!(m[0][6], 3);
    let lone = grid(&[("d4", Piece::WQueen), ("d6", Piece::BPawn), ("f4", Piece::WPawn), ("a1", Piece::BRook)]);
    let m = movabilities(&lone);
    assert_eq!(m[3][3], 3 + 2 + 3 + 1 + 3 + 3 + 3 + 4);
    assert_eq!(m[0][0], 7 + 7);
    assert_eq!(m[5][3], 1);
    assert_eq!(m[3][5], 1);
}

#[test]
fn mobility_of_pawns() {
    let g = grid(&[
        ("a2", Piece::WPawn),
        ("b3", Piece::BKnight),
        ("c2", Piece::WPawn),
        ("c3", Piece::BPawn),
        ("h8", Piece::WPawn),
        ("e2", Piece::WPawn),
        ("e4", Piece::BBishop),
        ("g7", Piece::BPawn),
        ("h1", Piece::BPawn),
        ("f6", Piece::WKnight),
    ]);
    assert_eq!(white_pawn_movab(&g, &sq("a2")), 3);
    assert_eq!(white_pawn_movab(&g, &sq("c2")), 1);
    assert_eq!(white_pawn_movab(&g, &sq("h8")), 10);
    assert_eq!(white_pawn_movab(&g, &sq("e2")), 1);
    assert_eq!(black_pawn_movab(&g, &sq("g7")), 3);
    assert_eq!(black_pawn_movab(&g, &sq("h1")), 10);
    assert_eq!(black_pawn_movab(&g, &sq("c3")), 0);
}

#[test]
fn mobility_by_offsets() {
    let g = grid(&[("d4", Piece::WRook), ("d6", Piece::BPawn), ("f4", Piece::WPawn)]);
    let straight = [[0, 1], [-1, 0], [0, -1], [1, 0]];
    assert_eq!(tally_cont_movab(&g, &sq("d4"), Color::White, &straight), 1 + 3 + 3 + 2);
    assert_eq!(tally_cont_movab(&g, &sq("d4"), Color::Black, &straight), 2 + 3 + 3 + 1);
    let steps = [[1, 1], [0, 1], [-1, 1], [-1, 0], [-1, -1], [0, -1], [1, -1], [1, 0]];
    assert_eq!(tally_sing_movab(&g, &sq("e5"), Color::White, &steps), 6);
    assert_eq!(tally_sing_movab(&g, &sq("e5"), Color::Black, &steps), 7);
    assert_eq!(tally_sing_movab(&g, &sq("a1"), Color::White, &steps), 3);
}

#[test]
fn mobility_score() {
    let start = movabilities(&START_GRID);
    assert_eq!(movability_coeff(&START_GRID, &start, 0), 0);
    let open = after_e4();
    let m = movabilities(&open.state);
    assert_eq!(movability_coeff(&open.state, &m, 1), 14);
    assert_eq!(movability_coeff(&open.state, &m, 8), 18);
    assert_eq!(movability_coeff(&open.state, &m, 1000), 18);
    let white_only = grid(&[("b2", Piece::WPawn), ("c1", Piece::WBishop), ("d2", Piece::WPawn), ("b3", Piece::BKnight), ("d3", Piece::BKnight)]);
    let mut given = [[0u8; 8]; 8];
    given[2][1] = 5;
    given[2][3] = 7;
    assert_eq!(movability_coeff(&white_only, &given, 0), -4 - 8 - 15 - 5 - 7);
}

#[test]
fn scores_of_a_position() {
    let start = Board::default();
    assert_eq!(start.immediate_analysis(), 0);
    assert_eq!(start.simple_analysis(), 0);
    assert_eq!(start.analysis_with_imminent_attacks(), 0);
    let open = after_e4();
    assert_eq!(open.immediate_analysis(), 100 + 12 * 14 + 9 * 90);
    assert_eq!(open.simple_analysis(), 100 + 7 * 90);
}

#[test]
fn influence_on_the_scale_from_one_to_ten() {
    let infs = influence_grid(&START_GRID);
    assert_eq!(infs[2][4], 25);
    assert_eq!(infs[5][4], -25);
    assert_eq!(infs[2][0], 10 + 6 + 5);
    assert_eq!(infs[3][3], 0);
    assert_eq!(infs[1][4], 1 + 2 + 5 + 6);
    assert_eq!(infs[0][0], 0);
    assert_eq!(infs[0][1], 4);
    let lone = grid(&[("a1", Piece::WRook), ("a3", Piece::WRook), ("a5", Piece::BPawn), ("c1", Piece::WQueen)]);
    let infs = influence_grid(&lone);
    assert_eq!(infs[1][0], 8);
    assert_eq!(infs[3][0], 8);
    assert_eq!(infs[4][0], 8);
    assert_eq!(infs[5][0], 0);
    assert_eq!(infs[0][1], 4 + 2);
    assert_eq!(infs[0][0], 4 + 2);
    assert_eq!(infs[2][0], 4 + 2);
    assert_eq!(infs[3][1], -10);
    assert_eq!(infs[0][3], 4 + 2);
    assert_eq!(infs[0][7], 4 + 2);
}

#[test]
fn influence_with_every_piece_as_one() {
    let infs = Board::influence_grid(&START_GRID);
    assert_eq!(infs[2][4], 3);
    assert_eq!(infs[5][4], -3);
    assert_eq!(infs[1][4], 4);
    assert_eq!(infs[3][3], 0);
    let wide = influence_of_side(&START_GRID, Weighting::Unit, Color::Neither);
    for r in 0..8 {
        for f in 0..8 {
            assert_eq!(infs[r][f] as i32, wide[r][f]);
        }
    }
}

#[test]
fn influence_step_by_step() {
    let board = grid(&[("d4", Piece::WRook), ("d6", Piece::WQueen), ("d7", Piece::BPawn), ("f4", Piece::WPawn), ("f6", Piece::WPawn)]);
    let mut infs = [[0i32; 8]; 8];
    populate_orth_offsets(&mut infs, &board, 4, &sq("d4"), Color::White);
    assert_eq!(infs[4][3], 4);
    assert_eq!(infs[5][3], 4);
    assert_eq!(infs[6][3], 4);
    assert_eq!(infs[7][3], 0);
    assert_eq!(infs[3][4], 4);
    assert_eq!(infs[3][5], 4);
    assert_eq!(infs[3][6], 0);
    assert_eq!(infs[3][0], 4);
    assert_eq!(infs[0][3], 4);
    assert_eq!(infs[3][3], 0);
    let mut infs = [[0i32; 8]; 8];
    populate_diag_offsets(&mut infs, &board, 5, &sq("d4"), Color::White);
    assert_eq!(infs[4][4], 5);
    assert_eq!(infs[5][5], 5);
    assert_eq!(infs[6][6], 5);
    assert_eq!(infs[7][7], 0);
    assert_eq!(infs[2][2], 5);
    assert_eq!(infs[0][0], 5);
    let mut infs = [[0i32; 8]; 8];
    populate_diag_offsets(&mut infs, &board, -5, &sq("h8"), Color::Black);
    assert_eq!(infs[6][6], -5);
    assert_eq!(infs[5][5], -5);
    assert_eq!(infs[4][4], 0);
    let mut infs = [[1i32; 8]; 8];
    let jumps = [[2, 1], [1, 2], [-2, 1], [1, -2], [2, -1], [-1, 2], [-2, -1], [-1, -2]];
    populate_sing_offsets(&mut infs, 6, &jumps, &sq("b1"));
    assert_eq!(infs[2][0], 7);
    assert_eq!(infs[2][2], 7);
    assert_eq!(infs[1][3], 7);
    assert_eq!(infs[0][1], 1);
    assert_eq!(infs[3][3], 1);
}

#[test]
fn weights_of_the_pieces() {
    assert_eq!(weight_of(Piece::WPawn, Weighting::Scaled), 10);
    assert_eq!(weight_of(Piece::BKnight, Weighting::Scaled), -6);
    assert_eq!(weight_of(Piece::BQueen, Weighting::Scaled), -2);
    assert_eq!(weight_of(Piece::BQueen, Weighting::Unit), -1);
    assert_eq!(weight_of(Piece::WKing, Weighting::Unit), 1);
    assert_eq!(weight_of(Piece::Empty, Weighting::Unit), 0);
    assert_eq!(weight_of(Piece::WPawn, Weighting::Graded), 512);
    assert_eq!(Piece::WPawn.sminf(), 512);
    assert_eq!(Piece::BBishop.sminf(), -64);
    assert_eq!(Piece::BKnight.sminf(), -64);
    assert_eq!(Piece::WRook.sminf(), 16);
    assert_eq!(Piece::BQueen.sminf(), -4);
    assert_eq!(Piece::WKing.sminf(), 1);
    assert_eq!(Piece::Empty.sminf(), 0);
}

#[test]
fn influence_score_on_the_scale() {
    let board = grid(&[("d4", Piece::WKnight), ("e5", Piece::BPawn), ("a1", Piece::WRook)]);
    let mut infs = [[0i8; 8]; 8];
    infs[3][3] = -3;
    infs[4][4] = 2;
    infs[0][0] = 5;
    infs[7][7] = 100;
    assert_eq!(influence_coeff(&board, &infs), 4 * -3 * 6 + 4 * 2 * 6 + 2 * 5 * 1);
    infs[3][3] = 3;
    infs[4][4] = -2;
    assert_eq!(influence_coeff(&board, &infs), 2 * 3 * 6 + 2 * -2 * 6 + 2 * 5 * 1);
    assert_eq!(influence_coeff(&START_GRID, &influence_grid(&START_GRID)), 0);
}

#[test]
fn influence_score_with_every_piece_as_one() {
    let board = grid(&[("d4", Piece::WKnight), ("e5", Piece::BPawn), ("a1", Piece::WRook)]);
    let mut infs = [[0i8; 8]; 8];
    infs[3][3] = -3;
    infs[4][4] = 2;
    infs[0][0] = 5;
    infs[7][7] = 100;
    infs[3][4] = 7;
    assert_eq!(Board::influence_coeff(&board, infs), (4 * -3 - 3) + (4 * 2 + 2) + 2 * 5 + 100 + 2 * 7);
    assert_eq!(Board::influence_coeff(&START_GRID, Board::influence_grid(&START_GRID)), 0);
    assert_eq!(Board::default().rough_analysis(), 0);
}

#[test]
fn graded_influence_of_the_two_sides() {
    let (white, black) = smart_influence_grid_double(&START_GRID);
    assert_eq!(white[2][4], 512 + 512 + 64);
    assert_eq!(black[5][4], -(512 + 512 + 64));
    assert_eq!(white[5][4], 0);
    assert_eq!(black[2][4], 0);
    assert_eq!(white[1][4], 1 + 4 + 64 + 64);
    let both = smart_influence_grid(&START_GRID);
    assert_eq!(both[2][4], 1088);
    assert_eq!(both[5][4], -1088);
    assert_eq!(both[3][3], 0);
    let (white, black) = smart_influence_grid_double(&hanging_queen());
    assert_eq!(white[3][3], 512);
    assert_eq!(black[3][3], -64);
    assert_eq!(white[7][7], 4);
    assert_eq!(black[7][7], 0);
}

#[test]
fn a_ray_through_a_dearer_piece_is_left_with_that_piece_s_influence() {
    let board = grid(&[("a1", Piece::WRook), ("a3", Piece::WQueen), ("a6", Piece::WRook), ("c1", Piece::WBishop)]);
    let (white, _) = smart_influence_grid_double(&board);
    assert_eq!(white[1][0], 16 + 4 + 4);
    assert_eq!(white[3][0], 4 + 4 + 16);
    assert_eq!(white[6][0], 16 + 4 + 4);
    assert_eq!(white[2][0], 16 + 16 + 64);
    let mut infs = [[0i32; 8]; 8];
    populate_orth_offsets_sm(&mut infs, &board, 16, &sq("a1"), Color::White);
    assert_eq!(infs[1][0], 16);
    assert_eq!(infs[2][0], 16);
    assert_eq!(infs[3][0], 4);
    assert_eq!(infs[5][0], 4);
    assert_eq!(infs[6][0], 4);
    assert_eq!(infs[7][0], 4);
    assert_eq!(infs[0][0], 0);
    assert_eq!(infs[0][1], 16);
    assert_eq!(infs[0][2], 16);
    assert_eq!(infs[0][3], 0);
    let mut infs = [[0i32; 8]; 8];
    populate_diag_offsets_sm(&mut infs, &board, 64, &sq("c1"), Color::White);
    assert_eq!(infs[1][1], 64);
    assert_eq!(infs[2][0], 64);
    assert_eq!(infs[4][6], 64);
    assert_eq!(infs[5][7], 64);
    assert_eq!(infs[5][6], 0);
    let mut infs = [[0i32; 8]; 8];
    populate_sing_offsets_sm(&mut infs, 512, &[[1, 1], [1, -1]], &sq("a2"));
    assert_eq!(infs[2][1], 512);
    assert_eq!(infs.iter().flatten().sum::<i32>(), 512);
}

#[test]
fn the_cheapest_attacker_is_the_highest_bit() {
    assert_eq!(remove_cheapest_attacker(64), 0);
    assert_eq!(remove_cheapest_attacker(1024 + 64), 64);
    assert_eq!(remove_cheapest_attacker(5), 1);
    assert_eq!(remove_cheapest_attacker(1), 0);
    assert_eq!(remove_cheapest_attacker(512 + 64 + 16 + 4 + 1), 64 + 16 + 4 + 1);
    assert_eq!(remove_cheapest_attacker(u32::MAX), u32::MAX / 2);
}

#[test]
fn kinds_of_attack() {
    assert_eq!(Piece::WQueen.under_attack_e(512, 64), Attack::GainfulAttack);
    assert_eq!(Piece::WQueen.under_attack_e(512, 4), Attack::Trade);
    assert_eq!(Piece::WQueen.under_attack_e(512, 1), Attack::NoAttack);
    assert_eq!(Piece::WQueen.under_attack_e(512, 0), Attack::NoAttack);
    assert_eq!(Piece::WQueen.under_attack_e(0, 1), Attack::GainfulAttack);
    assert_eq!(Piece::BPawn.under_attack_e(0, 0), Attack::NoAttack);
    assert_eq!(Piece::BPawn.under_attack_e(64, 64), Attack::NoAttack);
    assert_eq!(Piece::BPawn.under_attack_e(64, 512), Attack::Trade);
    assert_eq!(Piece::BPawn.under_attack_e(64, 512 + 64), Attack::GainfulAttack);
    assert_eq!(Piece::WRook.under_attack_e(16, 16 + 4), Attack::Trade);
    assert_eq!(Piece::WRook.under_attack_e(16, 16 + 16), Attack::GainfulAttack);
    assert_eq!(Attack::NoAttack.symbol(), '-');
    assert_eq!(Attack::Trade.symbol(), 'T');
    assert_eq!(Attack::GainfulAttack.symbol(), 'G');
}

#[test]
fn a_queen_attacked_by_a_knight_and_guarded_by_a_pawn_can_be_taken_with_gain() {
    let board = hanging_queen();
    let (white, black) = smart_influence_grid_double(&board);
    let attacks = tension_board(&board, &white, &black);
    assert_eq!(attacks[3][3], Attack::GainfulAttack);
    assert_ne!(attacks[3][3], Attack::Trade);
    assert_eq!(attacks[2][2], Attack::NoAttack);
    assert_eq!(attacks[5][4], Attack::NoAttack);
    assert_eq!(attacks[0][0], Attack::NoAttack);
    assert_eq!(attacks[7][7], Attack::GainfulAttack);
    assert_eq!(attacks[4][4], Attack::NoAttack);
    assert_eq!(tensions(&board, &white, &black), [0, 1, 0, 1]);
    assert_eq!(threat_value(&board, attacks, Color::Black), -10000);
    assert_eq!(threat_value(&board, attacks, Color::White), 0);
    assert_eq!(threat_value(&board, attacks, Color::Neither), 0);
}

#[test]
fn a_queen_attacked_by_a_queen_and_guarded_is_a_trade() {
    let board = grid(&[
        ("b1", Piece::WKing),
        ("h7", Piece::BKing),
        ("d4", Piece::WQueen),
        ("c3", Piece::WPawn),
        ("d7", Piece::BQueen),
        ("a7", Piece::BRook),
    ]);
    let (white, black) = smart_influence_grid_double(&board);
    assert_eq!(white[3][3], 512);
    assert_eq!(black[3][3], -4);
    assert_eq!(white[6][3], 4);
    assert_eq!(black[6][3], -16);
    let attacks = tension_board(&board, &white, &black);
    assert_eq!(attacks[3][3], Attack::Trade);
    assert_eq!(attacks[6][3], Attack::Trade);
    assert_eq!(attacks[6][0], Attack::NoAttack);
    assert_eq!(tensions(&board, &white, &black), [1, 0, 1, 0]);
}

#[test]
fn the_side_to_move_saves_its_dearest_piece() {
    let board = grid(&[("a1", Piece::WQueen), ("b1", Piece::WRook), ("c6", Piece::WPawn), ("a8", Piece::BRook), ("b8", Piece::BKnight), ("e8", Piece::BKing)]);
    let mut attacks = [[Attack::NoAttack; 8]; 8];
    attacks[0][0] = Attack::GainfulAttack;
    attacks[0][1] = Attack::GainfulAttack;
    attacks[5][2] = Attack::GainfulAttack;
    attacks[7][0] = Attack::GainfulAttack;
    attacks[7][1] = Attack::Trade;
    attacks[7][4] = Attack::GainfulAttack;
    attacks[4][4] = Attack::GainfulAttack;
    assert_eq!(threat_value(&board, attacks, Color::White), 5000 - (5000 + 1300));
    assert_eq!(threat_value(&board, attacks, Color::Black), 0 - (10000 + 5000 + 1300));
    assert_eq!(threat_value(&board, attacks, Color::Neither), 0);
}

#[test]
fn tension_against_a_side() {
    assert_eq!(tension_against_color(&[0, 1, 0, 1], Color::White), 1);
    assert_eq!(tension_against_color(&[4, 2, 7, 5], Color::White), 3);
    assert_eq!(tension_against_color(&[4, 2, 7, 5], Color::Black), 7);
    assert_eq!(tension_against_color(&[4, 2, 7, 5], Color::Neither), 0);
    assert_eq!(tension_against_color(&[-4, 2, -7, 0], Color::White), 1);
    assert_eq!(tension_against_color(&[-4, 2, -7, 0], Color::Black), -2);
    assert_eq!(total_tension(&[4, 2, 7, 5]), 10);
    assert_eq!(total_tension(&[0, 1, 0, 1]), 2);
}

#[test]
fn pieces_under_hostile_influence() {
    let board = grid(&[("a1", Piece::WQueen), ("b1", Piece::WRook), ("c6", Piece::WPawn), ("a8", Piece::BRook), ("b8", Piece::BKnight)]);
    let mut sminfs = [[0i32; 8]; 8];
    sminfs[0][0] = -1;
    sminfs[0][1] = -5;
    sminfs[5][2] = 3;
    sminfs[7][0] = 2;
    sminfs[7][1] = 9;
    sminfs[4][4] = -7;
    assert_eq!(sminf_coeff(&board, &sminfs, Color::White), (5000 + 3000) - 5000);
    assert_eq!(sminf_coeff(&board, &sminfs, Color::Black), 3000 - (10000 + 5000));
    assert_eq!(sminf_coeff(&board, &sminfs, Color::Neither), 3000 - (10000 + 5000));
    assert_eq!(sminf_coeff(&START_GRID, &[[0i32; 8]; 8], Color::White), 0);
}

#[test]
fn quotients_are_rounded_towards_zero() {
    assert_eq!(div_toward_zero(7, 2), 3);
    assert_eq!(div_toward_zero(-7, 2), -3);
    assert_eq!(div_toward_zero(-1660, 100), -16);
    assert_eq!(div_toward_zero(0, 5), 0);
    assert_eq!(div_toward_zero(-9, 10), 0);
    assert_eq!(div_toward_zero(i32::MAX, 1), i32::MAX);
}

#[test]
fn the_score_with_threats_counts_nine_tenths_of_them() {
    let board = Board {
        state: hanging_queen(),
        history: vec![],
        castle_rights: 0,
        active_color: Color::Black,
        move_count: 0,
        en_passant: 8,
    };
    assert_eq!(board.analysis_with_imminent_attacks(), board.immediate_analysis() - 9000);
    let white_to_move = Board { active_color: Color::White, ..board.clone() };
    assert_eq!(white_to_move.analysis_with_imminent_attacks(), white_to_move.immediate_analysis());
}

#[test]
fn influence_of_one_piece_and_of_one_ray() {
    let board = grid(&[("d4", Piece::WQueen), ("d6", Piece::WRook), ("f6", Piece::WPawn), ("b2", Piece::BPawn)]);
    let mut infs = [[0i32; 8]; 8];
    spread_ray(&mut infs, &board, 4, &sq("d4"), Color::White, 1, 0, false, true);
    assert_eq!(infs[4][3], 4);
    assert_eq!(infs[5][3], 4);
    assert_eq!(infs[6][3], 4);
    assert_eq!(infs[7][3], 4);
    assert_eq!(infs.iter().flatten().sum::<i32>(), 16);
    let mut infs = [[0i32; 8]; 8];
    spread_ray(&mut infs, &board, 16, &sq("d6"), Color::White, -1, 0, false, true);
    assert_eq!(infs[4][3], 16);
    assert_eq!(infs[3][3], 16);
    assert_eq!(infs[2][3], 4);
    assert_eq!(infs[0][3], 4);
    let mut infs = [[0i32; 8]; 8];
    spread_ray(&mut infs, &board, 4, &sq("d4"), Color::White, 1, 1, true, false);
    assert_eq!(infs[4][4], 4);
    assert_eq!(infs[5][5], 4);
    assert_eq!(infs[6][6], 4);
    assert_eq!(infs[7][7], 0);
    let mut infs = [[0i32; 8]; 8];
    spread_ray(&mut infs, &board, 4, &sq("d4"), Color::White, -1, -1, true, false);
    assert_eq!(infs[2][2], 4);
    assert_eq!(infs[1][1], 4);
    assert_eq!(infs[0][0], 0);
    let mut infs = [[0i32; 8]; 8];
    spread_rays(&mut infs, &board, 2, &sq("d4"), Color::White, &[[1, 0], [0, 1], [-1, 0], [0, -1]], false, false);
    assert_eq!(infs.iter().flatten().sum::<i32>(), 2 * (4 + 4 + 3 + 3));
    let mut infs = [[0i32; 8]; 8];
    spread_piece(&mut infs, &board, &sq("d4"), 4, true);
    assert_eq!(infs.iter().flatten().sum::<i32>(), 4 * (4 + 4 + 3 + 3) + 4 * (3 + 3 + 2 + 3));
    let mut infs = [[0i32; 8]; 8];
    spread_piece(&mut infs, &board, &sq("b2"), -512, true);
    assert_eq!(infs[0][0], -512);
    assert_eq!(infs[0][2], -512);
    assert_eq!(infs.iter().flatten().sum::<i32>(), -1024);
    let mut infs = [[0i32; 8]; 8];
    spread_piece(&mut infs, &board, &sq("e5"), 7, true);
    assert_eq!(infs, [[0i32; 8]; 8]);
    assert_eq!(graded_of(Piece::WRook), 16);
    assert_eq!(graded_of(Piece::BPawn), -512);
}

#[test]
fn the_black_grid_may_have_either_sign() {
    let board = hanging_queen();
    let (white, black) = smart_influence_grid_double(&board);
    let mut turned = black;
    for r in 0..8 {
        for f in 0..8 {
            turned[r][f] = -black[r][f];
        }
    }
    assert_eq!(turned[3][3], 64);
    assert_eq!(tension_board(&board, &white, &turned), tension_board(&board, &white, &black));
    assert_eq!(tensions(&board, &white, &turned), [0, 1, 0, 1]);
}

#[test]
fn influences_of_the_wrong_sign_are_read_without_sign() {
    assert_eq!(Piece::WQueen.under_attack_e(512, -1), Attack::GainfulAttack);
    assert_eq!(Piece::WQueen.under_attack_e(-1, 4), Attack::Trade);
    assert_eq!(Piece::WQueen.under_attack_e(-1, 1), Attack::NoAttack);
    assert_eq!(Piece::WQueen.under_attack_e(-1, 64), Attack::GainfulAttack);
    assert_eq!(Piece::WPawn.under_attack_e(i32::MIN, i32::MIN), Attack::GainfulAttack);
    assert_eq!(Piece::WPawn.under_attack_e(-1, 512 + 1), Attack::Trade);
}

#[test]
fn the_influence_grids_hold_small_numbers() {
    let scaled: [[i8; 8]; 8] = influence_grid(&START_GRID);
    let unit: [[i8; 8]; 8] = Board::influence_grid(&START_GRID);
    assert_eq!(scaled[2][4], 25);
    assert_eq!(unit[2][4], 3);
    let score: i16 = Board::influence_coeff(&START_GRID, unit);
    assert_eq!(score, 0);
    let rough: i16 = Board::default().rough_analysis();
    assert_eq!(rough, 0);
    let queens = grid(&[("d4", Piece::WQueen), ("e1", Piece::WKing), ("e8", Piece::BKing)]);
    let board = Board { state: queens, history: vec![], castle_rights: 0, active_color: Color::White, move_count: 0, en_passant: 8 };
    let infs = Board::influence_grid(&queens);
    assert_eq!(infs[3][0], 1);
    assert_eq!(infs[0][3], 2);
    assert_eq!(infs[6][3], 0);
    assert_eq!(board.rough_analysis(), 1000 + Board::influence_coeff(&queens, infs));
}

#[test]
fn influence_that_does_not_fit_is_told() {
    assert_eq!(try_influence_grid(&START_GRID), Some(influence_grid(&START_GRID)));
    let mut crowd = [[Piece::WKnight; 8]; 8];
    crowd[3][3] = Piece::Empty;
    crowd[2][2] = Piece::WPawn;
    crowd[2][4] = Piece::WPawn;
    for f in 0..8 {
        crowd[3][f] = Piece::WRook;
    }
    for r in 0..8 {
        crowd[r][3] = Piece::WRook;
    }
    crowd[3][3] = Piece::Empty;
    crowd[4][4] = Piece::WBishop;
    crowd[4][2] = Piece::WBishop;
    assert_eq!(try_influence_grid(&crowd), None);
}
