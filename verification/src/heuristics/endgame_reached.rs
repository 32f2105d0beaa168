//! How far the game has moved towards the endgame, judged by the officers left.

use vstd::prelude::*;
use crate::board::Grid;
use crate::piece::{Color, Piece, PieceType};
use crate::sums::{cells_sum, grid_sum, rows_sum};

verus! {

/// The worth of the piece on a square if it is a queen, rook, bishop or knight of the
/// given colour, else 0.
pub open spec fn officer_term(g: Grid, color: Color) -> spec_fn(int, int) -> int {
    |r: int, f: int|
        {
            let p = g[r][f];
            if p.color_of() == color && p.type_of() != PieceType::King && p.type_of()
                != PieceType::Pawn {
                p.base_value()
            } else {
                0
            }
        }
}

/// The worth of the queens, rooks, bishops and knights of one colour.
pub open spec fn officers_of(g: Grid, color: Color) -> int {
    grid_sum(officer_term(g, color))
}

/// How far towards the endgame a position is, from 0 (all officers on the board) to 100
/// (officers worth 16 pawns or less are left).
pub open spec fn endgame_score(g: Grid) -> int {
    let total = officers_of(g, Color::White) / 1000 + officers_of(g, Color::Black) / 1000;
    let quantity = total * 200 / 64 - 50;
    if quantity < 0 {
        100
    } else if quantity > 100 {
        0
    } else {
        100 - quantity
    }
}

/// How far towards the endgame the position is, from 0 to 100.
pub fn in_endgame(board: &[[Piece; 8]; 8]) -> (score: i32)
    ensures
        score == endgame_score(*board),
        0 <= score <= 100,
{
    let mut w_mat: i32 = 0;
    let mut b_mat: i32 = 0;
    let ghost w = officer_term(*board, Color::White);
    let ghost b = officer_term(*board, Color::Black);
    let mut r: usize = 0;
    while r < 8
        invariant
            r <= 8,
            w == officer_term(*board, Color::White),
            b == officer_term(*board, Color::Black),
            w_mat == rows_sum(w, r as int),
            b_mat == rows_sum(b, r as int),
            0 <= w_mat <= 80000 * r,
            0 <= b_mat <= 80000 * r,
        decreases 8 - r,
    {
        let mut f: usize = 0;
        while f < 8
            invariant
                r < 8,
                f <= 8,
                w == officer_term(*board, Color::White),
                b == officer_term(*board, Color::Black),
                w_mat == rows_sum(w, r as int) + cells_sum(w, r as int, f as int),
                b_mat == rows_sum(b, r as int) + cells_sum(b, r as int, f as int),
                0 <= w_mat <= 80000 * r + 10000 * f,
                0 <= b_mat <= 80000 * r + 10000 * f,
            decreases 8 - f,
        {
            let mat = board[r][f].material_eval_base();
            match board[r][f] {
                Piece::BQueen | Piece::BRook | Piece::BBishop | Piece::BKnight => {
                    b_mat += mat;
                },
                Piece::WQueen | Piece::WRook | Piece::WBishop | Piece::WKnight => {
                    w_mat += mat;
                },
                _ => {},
            }
            f += 1;
        }
        r += 1;
    }
    let mat_total: i32 = w_mat / 1000 + b_mat / 1000;
    let eg_quant: i32 = mat_total * 200 / 64 - 50;
    if eg_quant < 0 {
        100
    } else if eg_quant > 100 {
        0
    } else {
        100 - eg_quant
    }
}

} // verus!
