//! Placement: how well each piece stands on its square, by fixed tables.

use vstd::prelude::*;
use crate::board::{Grid, Square};
use crate::heuristics::endgame_reached::{endgame_score, in_endgame};
use crate::piece::{Color, Piece, PieceType};
use crate::sums::{cells_sum, div_toward_zero, grid_sum, lemma_rows_sum_bounds, quot, rows_sum};

verus! {

/// Where a white pawn likes to stand, in hundredths of a pawn; the first row is the first rank.
pub const WPAWN: [[i32; 8]; 8] = [
    [0, 0, 0, 0, 0, 0, 0, 0],
    [5, 15, 15, -50, -50, 10, 10, 5],
    [5, -5, -10, 0, 0, 0, -5, 5],
    [0, 0, 0, 40, 40, 20, 0, 0],
    [5, 5, 10, 30, 30, 10, 5, 5],
    [10, 10, 20, 30, 30, 20, 10, 10],
    [50, 50, 50, 50, 50, 50, 50, 50],
    [0, 0, 0, 0, 0, 0, 0, 0],
];

/// Where a white knight likes to stand.
pub const WKNIGHT: [[i32; 8]; 8] = [
    [-50, -40, -30, -30, -30, -30, -40, -50],
    [-40, -20, 0, 0, 0, 0, -20, -40],
    [-30, 5, 30, 15, 15, 30, 5, -30],
    [-30, 0, 15, 20, 20, 15, 0, -30],
    [-30, 5, 15, 20, 20, 15, 5, -30],
    [-30, 0, 10, 15, 15, 10, 0, -30],
    [-40, -20, 0, 5, 5, 0, -20, -40],
    [-50, -40, -30, -30, -30, -30, -40, -50],
];

/// Where a white bishop likes to stand.
pub const WBISHOP: [[i32; 8]; 8] = [
    [-20, -10, -10, -10, -10, -10, -10, -20],
    [-10, 5, 0, 0, 0, 0, 5, -10],
    [-10, 10, 10, 10, 10, 10, 10, -10],
    [-10, 0, 10, 10, 10, 10, 0, -10],
    [-10, 5, 5, 10, 10, 5, 5, -10],
    [-10, 0, 5, 10, 10, 5, 0, -10],
    [-10, 0, 0, 0, 0, 0, 0, -10],
    [-20, -10, -10, -10, -10, -10, -10, -20],
];

/// Where a white rook likes to stand.
pub const WROOK: [[i32; 8]; 8] = [
    [0, 0, 5, 10, 10, 5, 0, 0],
    [-5, 0, 0, 0, 0, 0, 0, -5],
    [-5, 0, 0, 0, 0, 0, 0, -5],
    [-5, 0, 0, 0, 0, 0, 0, -5],
    [-5, 0, 0, 0, 0, 0, 0, -5],
    [-5, 0, 0, 0, 0, 0, 0, -5],
    [5, 15, 15, 15, 15, 15, 15, 5],
    [0, 0, 0, 0, 0, 0, 0, 0],
];

/// Where a white queen likes to stand.
pub const WQUEEN: [[i32; 8]; 8] = [
    [-20, -10, -10, -5, -5, -10, -10, -20],
    [-10, 0, 5, 0, 0, 0, 0, -10],
    [-10, 0, 5, 5, 5, 5, 0, -10],
    [0, 0, 5, 5, 5, 5, 0, -5],
    [-5, 0, 5, 5, 5, 5, 0, -5],
    [-10, 5, 5, 5, 5, 5, 0, -10],
    [-10, 0, 0, 0, 0, 0, 0, -10],
    [-20, -10, -10, -5, -5, -10, -10, -20],
];

/// Where the white king likes to stand while the officers are on the board.
pub const WKING_MID: [[i32; 8]; 8] = [
    [20, 50, 10, 0, 0, 30, 20, 20],
    [20, 20, 0, -20, -20, 0, 20, 20],
    [-10, -20, -20, -20, -20, -20, -20, -10],
    [-20, -30, -30, -40, -40, -30, -30, -20],
    [-30, -40, -40, -50, -50, -40, -40, -30],
    [-30, -40, -40, -50, -50, -40, -40, -30],
    [-30, -40, -40, -50, -50, -40, -40, -30],
    [-30, -40, -40, -50, -50, -40, -40, -30],
];

/// Where the white king likes to stand once the officers are gone.
pub const WKING_END: [[i32; 8]; 8] = [
    [-50, -30, -30, -30, -30, -30, -30, -50],
    [-30, -30, 0, 0, 0, 0, -30, -30],
    [-30, -10, 20, 30, 30, 20, -10, -30],
    [-30, -10, 30, 40, 40, 30, -10, -30],
    [-30, -10, 30, 40, 40, 30, -10, -30],
    [-30, -10, 20, 30, 30, 20, -10, -30],
    [-30, -20, -10, 0, 0, -10, -20, -30],
    [-50, -40, -30, -20, -20, -30, -40, -50],
];

/// The table of a kind of piece; the king's is the one for the middle game.
pub open spec fn table_of(kind: PieceType) -> [[i32; 8]; 8] {
    match kind {
        PieceType::King => WKING_MID,
        PieceType::Queen => WQUEEN,
        PieceType::Rook => WROOK,
        PieceType::Bishop => WBISHOP,
        PieceType::Knight => WKNIGHT,
        PieceType::Pawn => WPAWN,
        PieceType::Empty => WPAWN,
    }
}

/// Every entry of every table lies between -50 and 50.
pub proof fn lemma_table_bounds(r: int, f: int)
    requires
        0 <= r < 8,
        0 <= f < 8,
    ensures
        -50 <= WPAWN[r][f] <= 50,
        -50 <= WKNIGHT[r][f] <= 50,
        -50 <= WBISHOP[r][f] <= 50,
        -50 <= WROOK[r][f] <= 50,
        -50 <= WQUEEN[r][f] <= 50,
        -50 <= WKING_MID[r][f] <= 50,
        -50 <= WKING_END[r][f] <= 50,
{
}

impl Piece {
    /// The rank of a square as the piece's own side counts it.
    pub open spec fn own_rank(&self, rank: int) -> int {
        if self.color_of() == Color::White {
            rank
        } else {
            7 - rank
        }
    }

    /// How well the piece stands on a square, by its table read from its own side. The
    /// king's value is blended from two tables by `endgame`, a score from 0 to 100.
    pub open spec fn placement(&self, rank: int, file: int, endgame: int) -> int {
        let r = self.own_rank(rank);
        match self.type_of() {
            PieceType::Empty => 0,
            PieceType::King => quot(
                endgame * WKING_END[r][file] + (100 - endgame) * WKING_MID[r][file],
                100,
            ),
            kind => table_of(kind)[r][file] as int,
        }
    }

    /// How well the piece stands on a square.
    pub fn happiness_at(&self, s: Square, endgame: i32) -> (v: i32)
        requires
            s.valid(),
            0 <= endgame <= 100,
        ensures
            v == self.placement(s.rank as int, s.file as int, endgame as int),
            -50 <= v <= 50,
    {
        let r: usize = if self.color() == Color::White {
            s.rank as usize
        } else {
            (7 - s.rank) as usize
        };
        let f: usize = s.file as usize;
        proof {
            lemma_table_bounds(r as int, f as int);
        }
        match self.piece_type() {
            PieceType::Empty => 0,
            PieceType::King => blend(endgame, WKING_END[r][f], WKING_MID[r][f]),
            PieceType::Queen => WQUEEN[r][f],
            PieceType::Rook => WROOK[r][f],
            PieceType::Bishop => WBISHOP[r][f],
            PieceType::Knight => WKNIGHT[r][f],
            PieceType::Pawn => WPAWN[r][f],
        }
    }
}

/// The mean of two table entries, the first weighted by `endgame` of 100 parts.
fn blend(endgame: i32, end: i32, mid: i32) -> (v: i32)
    requires
        0 <= endgame <= 100,
        -50 <= end <= 50,
        -50 <= mid <= 50,
    ensures
        v == quot(endgame * end + (100 - endgame) * mid, 100),
        -50 <= v <= 50,
{
    let midgame: i32 = 100 - endgame;
    assert(-5000 <= endgame * end + midgame * mid <= 5000) by (nonlinear_arith)
        requires
            0 <= endgame <= 100,
            midgame == 100 - endgame,
            -50 <= end <= 50,
            -50 <= mid <= 50,
    ;
    assert(-5000 <= endgame * end <= 5000) by (nonlinear_arith)
        requires
            0 <= endgame <= 100,
            -50 <= end <= 50,
    ;
    assert(-5000 <= midgame * mid <= 5000) by (nonlinear_arith)
        requires
            0 <= midgame <= 100,
            -50 <= mid <= 50,
    ;
    div_toward_zero(endgame * end + midgame * mid, 100)
}

/// How well the piece on a square stands, counted for White and against Black.
pub open spec fn placement_term(g: Grid, endgame: int) -> spec_fn(int, int) -> int {
    |r: int, f: int| g[r][f].color_of().signed(g[r][f].placement(r, f, endgame))
}

/// How well White's pieces stand less how well Black's do.
pub open spec fn placement_balance(g: Grid) -> int {
    grid_sum(placement_term(g, endgame_score(g)))
}

/// No piece stands better than 50 or worse than -50 on any square.
pub proof fn lemma_placement_bounds(p: Piece, r: int, f: int, endgame: int)
    requires
        0 <= r < 8,
        0 <= f < 8,
        0 <= endgame <= 100,
    ensures
        -50 <= p.placement(r, f, endgame) <= 50,
{
    let own = p.own_rank(r);
    lemma_table_bounds(own, f);
    let end = WKING_END[own][f] as int;
    let mid = WKING_MID[own][f] as int;
    assert(-5000 <= endgame * end + (100 - endgame) * mid <= 5000) by (nonlinear_arith)
        requires
            0 <= endgame <= 100,
            -50 <= end <= 50,
            -50 <= mid <= 50,
    ;
}

/// The placement score lies between -3200 and 3200.
pub proof fn lemma_placement_balance_bounds(g: Grid)
    ensures
        -3200 <= placement_balance(g) <= 3200,
{
    let e = endgame_score(g);
    let t = placement_term(g, e);
    assert forall|i: int, j: int| 0 <= i < 8 && 0 <= j < 8 implies -50 <= #[trigger] t(i, j) <= 50 by {
        lemma_placement_bounds(g[i][j], i, j, e);
    }
    lemma_rows_sum_bounds(t, 8, -50, 50);
}

/// How well White's pieces stand less how well Black's do, in hundredths of a pawn.
pub fn pst_analysis(board: &[[Piece; 8]; 8]) -> (v: i32)
    ensures
        v == placement_balance(*board),
        -3200 <= v <= 3200,
{
    let endgame = in_endgame(board);
    let ghost t = placement_term(*board, endgame as int);
    let mut piece_enjoyment_index: i32 = 0;
    let mut r: usize = 0;
    while r < 8
        invariant
            r <= 8,
            0 <= endgame <= 100,
            t == placement_term(*board, endgame as int),
            piece_enjoyment_index == rows_sum(t, r as int),
            -400 * r <= piece_enjoyment_index <= 400 * r,
        decreases 8 - r,
    {
        let mut f: usize = 0;
        while f < 8
            invariant
                r < 8,
                f <= 8,
                0 <= endgame <= 100,
                t == placement_term(*board, endgame as int),
                piece_enjoyment_index == rows_sum(t, r as int) + cells_sum(t, r as int, f as int),
                -400 * r - 50 * f <= piece_enjoyment_index <= 400 * r + 50 * f,
            decreases 8 - f,
        {
            let piece = board[r][f];
            let here = piece.happiness_at(Square { rank: r as u8, file: f as u8 }, endgame);
            match piece.color() {
                Color::Neither => {},
                Color::White => {
                    piece_enjoyment_index += here;
                },
                Color::Black => {
                    piece_enjoyment_index -= here;
                },
            }
            f += 1;
        }
        r += 1;
    }
    piece_enjoyment_index
}

/// How well each piece stands on its square, square by square and without sign.
pub fn pst_board(board: &[[Piece; 8]; 8]) -> (pstb: [[i32; 8]; 8])
    ensures
        forall|r: int, f: int|
            0 <= r < 8 && 0 <= f < 8 ==> #[trigger] pstb[r][f] == board[r][f].placement(
                r,
                f,
                endgame_score(*board),
            ),
{
    let mut pstb: [[i32; 8]; 8] = [[0i32;8];8];
    let endgame = in_endgame(board);
    let mut r: usize = 0;
    while r < 8
        invariant
            r <= 8,
            endgame == endgame_score(*board),
            0 <= endgame <= 100,
            forall|i: int, j: int|
                0 <= i < r && 0 <= j < 8 ==> #[trigger] pstb[i][j] == board[i][j].placement(
                    i,
                    j,
                    endgame as int,
                ),
        decreases 8 - r,
    {
        let mut f: usize = 0;
        while f < 8
            invariant
                r < 8,
                f <= 8,
                endgame == endgame_score(*board),
                0 <= endgame <= 100,
                forall|i: int, j: int|
                    0 <= i < r && 0 <= j < 8 ==> #[trigger] pstb[i][j] == board[i][j].placement(
                        i,
                        j,
                        endgame as int,
                    ),
                forall|j: int|
                    0 <= j < f ==> #[trigger] pstb[r as int][j] == board[r as int][j].placement(
                        r as int,
                        j,
                        endgame as int,
                    ),
            decreases 8 - f,
        {
            let here = board[r][f].happiness_at(Square { rank: r as u8, file: f as u8 }, endgame);
            pstb[r][f] = here;
            f += 1;
        }
        r += 1;
    }
    pstb
}

} // verus!
