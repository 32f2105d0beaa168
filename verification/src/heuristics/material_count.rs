//! Material: the worth of the pieces on the board.

use vstd::prelude::*;
use crate::board::Grid;
use crate::piece::{Color, Piece, PieceType};
use crate::sums::{cells_sum, grid_sum, lemma_rows_sum_bounds, rows_sum};

verus! {

impl Piece {
    /// The worth of a piece by its kind, in thousandths of a pawn.
    pub open spec fn base_value(&self) -> int {
        match self.type_of() {
            PieceType::King => 200000,
            PieceType::Queen => 10000,
            PieceType::Rook => 5000,
            PieceType::Bishop => 3050,
            PieceType::Knight => 3000,
            PieceType::Pawn => 1000,
            PieceType::Empty => 0,
        }
    }

    /// What a pawn gains by how far it has advanced: counted from its own side, 100 on
    /// the fourth rank, 300 on the sixth, 2000 on the seventh.
    pub open spec fn advance_bonus(&self, rank: int) -> int {
        let own_rank = if *self == Piece::WPawn {
            rank
        } else {
            7 - rank
        };
        if *self != Piece::WPawn && *self != Piece::BPawn {
            0
        } else if own_rank == 6 {
            2000
        } else if own_rank == 5 {
            300
        } else if own_rank == 3 {
            100
        } else {
            0
        }
    }

    /// The worth of a piece that stands on the given rank.
    pub open spec fn value_on_rank(&self, rank: int) -> int {
        self.base_value() + self.advance_bonus(rank)
    }

    /// The worth of a piece that stands on the given rank; never negative.
    pub fn material_eval(&self, rank: u8, file: u8) -> (v: i32)
        ensures
            v == self.value_on_rank(rank as int),
            0 <= v <= 202000,
    {
        let bonus: i32 = match self {
            Piece::WPawn => match rank {
                6 => 2000,
                5 => 300,
                3 => 100,
                _ => 0,
            },
            Piece::BPawn => match rank {
                1 => 2000,
                2 => 300,
                4 => 100,
                _ => 0,
            },
            _ => 0,
        };
        self.material_eval_base() + bonus
    }

    /// The worth of a piece by its kind.
    pub fn material_eval_base(&self) -> (v: i32)
        ensures
            v == self.base_value(),
            0 <= v <= 200000,
    {
        match self.piece_type() {
            PieceType::King => 200000,
            PieceType::Queen => 10000,
            PieceType::Rook => 5000,
            PieceType::Bishop => 3050,
            PieceType::Knight => 3000,
            PieceType::Pawn => 1000,
            PieceType::Empty => 0,
        }
    }
}

/// The worth of the piece on a square if it is of the given colour, else 0.
pub open spec fn material_term(g: Grid, color: Color) -> spec_fn(int, int) -> int {
    |r: int, f: int|
        if g[r][f].color_of() == color {
            g[r][f].value_on_rank(r)
        } else {
            0
        }
}

/// The worth of all pieces of one colour.
pub open spec fn material_of(g: Grid, color: Color) -> int {
    grid_sum(material_term(g, color))
}

/// White's material less Black's.
pub open spec fn material_balance(g: Grid) -> int {
    material_of(g, Color::White) - material_of(g, Color::Black)
}

/// The material of a side is not negative and at most that of 64 pieces.
pub proof fn lemma_material_bounds(g: Grid, color: Color)
    ensures
        0 <= material_of(g, color) <= 12928000,
{
    lemma_rows_sum_bounds(material_term(g, color), 8, 0, 202000);
}

/// White's material less Black's.
pub fn material_count(board: &[[Piece; 8]; 8]) -> (v: i32)
    ensures
        v == material_balance(*board),
        -12928000 <= v <= 12928000,
{
    let mut white_total: i32 = 0;
    let mut black_total: i32 = 0;
    let ghost w = material_term(*board, Color::White);
    let ghost b = material_term(*board, Color::Black);
    let mut rank: usize = 0;
    while rank < 8
        invariant
            rank <= 8,
            w == material_term(*board, Color::White),
            b == material_term(*board, Color::Black),
            white_total == rows_sum(w, rank as int),
            black_total == rows_sum(b, rank as int),
            0 <= white_total <= 1616000 * rank,
            0 <= black_total <= 1616000 * rank,
        decreases 8 - rank,
    {
        let mut file: usize = 0;
        while file < 8
            invariant
                rank < 8,
                file <= 8,
                w == material_term(*board, Color::White),
                b == material_term(*board, Color::Black),
                white_total == rows_sum(w, rank as int) + cells_sum(w, rank as int, file as int),
                black_total == rows_sum(b, rank as int) + cells_sum(b, rank as int, file as int),
                0 <= white_total <= 1616000 * rank + 202000 * file,
                0 <= black_total <= 1616000 * rank + 202000 * file,
            decreases 8 - file,
        {
            let piece = board[rank][file];
            let material_eval = piece.material_eval(rank as u8, file as u8);
            match piece.color() {
                Color::Neither => {},
                Color::White => {
                    white_total += material_eval;
                },
                Color::Black => {
                    black_total += material_eval;
                },
            }
            file += 1;
        }
        rank += 1;
    }
    white_total - black_total
}

} // verus!
