//! The evaluation of a position: material, mobility, placement and threats, each a signed
//! score in which positive favours White.

use vstd::prelude::*;
use crate::board::{Board, InitialState};
use crate::heuristics::material_count::{lemma_material_bounds, material_balance, material_count};
use crate::heuristics::movability::{
    lemma_mobility_score, lemma_mobility_score_bounds, mobility_score, movabilities,
    movability_coeff,
};
use crate::heuristics::piece_square_tables::{
    lemma_placement_balance_bounds, placement_balance, pst_analysis,
};
use crate::board::{Grid, Square};
use crate::heuristics::influence::{at_inf, influence_on, Weighting};
use crate::heuristics::smart_influence::smart_influence_grid_double;
use crate::heuristics::tensity::{
    attack_on, graded_size, tension_board, threat_term, threat_value, Attack,
};
use crate::piece::{Color, PieceType};
use crate::sums::{
    div_toward_zero, grid_max, grid_sum, lemma_grid_max_ext, lemma_grid_sum_ext, quot,
};

pub mod material_count;
pub mod endgame_reached;
pub mod piece_square_tables;
pub mod movability;
pub mod influence;
pub mod smart_influence;
pub mod tensity;

verus! {

/// The score of a position as a search sees it at its leaves: material, twelve times the
/// mobility score and nine times the placement score.
pub open spec fn evaluation(p: InitialState) -> int {
    material_balance(p.state) + 12 * mobility_score(p.state, p.move_count as int) + 9
        * placement_balance(p.state)
}

/// The score of a position by material and placement alone: material and seven times the
/// placement score.
pub open spec fn simple_evaluation(p: InitialState) -> int {
    material_balance(p.state) + 7 * placement_balance(p.state)
}

/// The attack on the piece on a square, judged by the graded influence that the two
/// sides have on the square in the position.
pub open spec fn attack_in(g: Grid, r: int, f: int) -> Attack {
    let t = Square { rank: r as u8, file: f as u8 };
    let white = influence_on(g, t, Weighting::Graded, Color::White);
    let black = -influence_on(g, t, Weighting::Graded, Color::Black);
    match g[r][f].color_of() {
        Color::Neither => Attack::NoAttack,
        Color::White => attack_on(graded_size(g[r][f]), white, black),
        Color::Black => attack_on(graded_size(g[r][f]), black, white),
    }
}

/// The worth of the piece on a square if it is of the given colour, is no king and can
/// be taken with gain in the position, else 0.
pub open spec fn hanging_term(g: Grid, color: Color) -> spec_fn(int, int) -> int {
    |r: int, f: int|
        if attack_in(g, r, f) == Attack::GainfulAttack && g[r][f].color_of() == color && color
            != Color::Neither && g[r][f].type_of() != PieceType::King {
            g[r][f].value_on_rank(r)
        } else {
            0
        }
}

/// What the threats in a position are worth with the given side to move: the worth of
/// Black's pieces that can be taken with gain less that of White's, the dearest such
/// piece of the side to move left out.
pub open spec fn hanging_score(g: Grid, to_move: Color) -> int {
    let white = grid_sum(hanging_term(g, Color::White));
    let black = grid_sum(hanging_term(g, Color::Black));
    match to_move {
        Color::Neither => 0,
        Color::White => black - (white - grid_max(hanging_term(g, Color::White))),
        Color::Black => (black - grid_max(hanging_term(g, Color::Black))) - white,
    }
}

/// The score of a position with the threats in it: the score by material, mobility and
/// placement, and nine tenths of what the threats are worth.
pub open spec fn evaluation_with_threats(p: InitialState) -> int {
    evaluation(p) + quot(9 * hanging_score(p.state, p.active_color), 10)
}

/// The score of a position stays well inside the values that stand for a won game.
pub proof fn lemma_evaluation_bounds(p: InitialState)
    ensures
        -13000000 <= evaluation(p) <= 13000000,
{
    lemma_material_bounds(p.state, Color::White);
    lemma_material_bounds(p.state, Color::Black);
    lemma_mobility_score_bounds(p.state, p.move_count as int);
    lemma_placement_balance_bounds(p.state);
}

impl Board {
    /// The score of the position by material, mobility and placement; positive favours
    /// White.
    pub fn immediate_analysis(&self) -> (v: i32)
        ensures
            v == evaluation(self@.position),
            -13200000 <= v <= 13200000,
    {
        let board = &self.state;
        let movabs = movabilities(board);
        proof {
            lemma_mobility_score(self.state, movabs, self.move_count as int);
        }
        material_count(board) + 12 * movability_coeff(board, &movabs, self.move_count) + 9
            * pst_analysis(board)
    }

    /// The score of the position by material, mobility, placement and the threats in it.
    pub fn analysis_with_imminent_attacks(&self) -> (v: i32)
        ensures
            v == evaluation_with_threats(self@.position),
    {
        let board = &self.state;
        let movabs = movabilities(board);
        let (winfs, binfs) = smart_influence_grid_double(board);
        let attack_board = tension_board(board, &winfs, &binfs);
        let threat_analysis = threat_value(board, attack_board, self.active_color);
        proof {
            let g = self.state;
            lemma_mobility_score(g, movabs, self.move_count as int);
            assert forall|r: int, f: int| 0 <= r < 8 && 0 <= f < 8 implies #[trigger] attack_board[r][f]
                == attack_in(g, r, f) by {
                let t = Square { rank: r as u8, file: f as u8 };
                assert(at_inf(winfs, t) == winfs[r][f]);
                assert(at_inf(binfs, t) == binfs[r][f]);
            }
            let tw = threat_term(g, attack_board, Color::White);
            let tb = threat_term(g, attack_board, Color::Black);
            let hw = hanging_term(g, Color::White);
            let hb = hanging_term(g, Color::Black);
            lemma_grid_sum_ext(tw, hw);
            lemma_grid_sum_ext(tb, hb);
            lemma_grid_max_ext(tw, hw);
            lemma_grid_max_ext(tb, hb);
        }
        material_count(board) + 12 * movability_coeff(board, &movabs, self.move_count) + 9
            * pst_analysis(board) + div_toward_zero(threat_analysis * 9, 10)
    }

    /// The score of the position by material and placement alone.
    pub fn simple_analysis(&self) -> (v: i32)
        ensures
            v == simple_evaluation(self@.position),
    {
        let board = &self.state;
        material_count(board) + 7 * pst_analysis(board)
    }
}

} // verus!
