//! The attack oracle: whether a square is attacked by a side, and whether a king is in check.

use vstd::prelude::*;
use crate::board::{at, on_board, sq, Board, Grid, Square};
use crate::piece::{Color, Piece, PieceType};

verus! {

/// The coordinates name a square of the board.
pub open spec fn on_grid(r: int, f: int) -> bool {
    0 <= r < 8 && 0 <= f < 8
}

/// The coordinate reached from `x` after `k` steps in direction `d` (the sign of `d` counts).
pub open spec fn along(x: int, d: int, k: int) -> int {
    if d > 0 {
        x + k
    } else if d < 0 {
        x - k
    } else {
        x
    }
}

/// A direction of a ray: each component is -1, 0 or 1, and not both are 0.
pub open spec fn is_direction(dr: int, df: int) -> bool {
    -1 <= dr <= 1 && -1 <= df <= 1 && !(dr == 0 && df == 0)
}

/// The square `k` steps from `s` in direction `(dr, df)` is on the board and empty.
pub open spec fn empty_along(g: Grid, s: Square, dr: int, df: int, k: int) -> bool {
    let r = along(s.rank as int, dr, k);
    let f = along(s.file as int, df, k);
    on_grid(r, f) && g[r][f] == Piece::Empty
}

/// The first `k - 1` squares from `s` in direction `(dr, df)` are on the board and empty.
pub open spec fn ray_clear(g: Grid, s: Square, dr: int, df: int, k: int) -> bool {
    forall|j: int| 1 <= j < k ==> #[trigger] empty_along(g, s, dr, df, j)
}

/// The first piece met from `s` in direction `(dr, df)` stands `k` steps away and attacks
/// along the ray: a `slider` or a queen of colour `by`, or that colour's king at one step.
pub open spec fn slider_at(
    g: Grid,
    s: Square,
    dr: int,
    df: int,
    k: int,
    by: Color,
    slider: PieceType,
) -> bool {
    let r = along(s.rank as int, dr, k);
    let f = along(s.file as int, df, k);
    &&& 1 <= k
    &&& on_grid(r, f)
    &&& ray_clear(g, s, dr, df, k)
    &&& g[r][f] != Piece::Empty
    &&& g[r][f] == slider.colored(by) || g[r][f] == PieceType::Queen.colored(by) || (k == 1
        && g[r][f] == PieceType::King.colored(by))
}

/// The square `s` is attacked along the ray that leaves it in direction `(dr, df)`.
pub open spec fn ray_attack(g: Grid, s: Square, dr: int, df: int, by: Color, slider: PieceType) -> bool {
    exists|k: int| #[trigger] slider_at(g, s, dr, df, k, by, slider)
}

/// The piece `p` stands at the given offset from `s`.
pub open spec fn piece_at_offset(g: Grid, s: Square, dr: int, df: int, p: Piece) -> bool {
    on_grid(s.rank + dr, s.file + df) && p != Piece::Empty && g[s.rank + dr][s.file + df] == p
}

/// A rook, queen or adjacent king of colour `by` attacks `s` along a rank or file.
pub open spec fn straight_attack(g: Grid, by: Color, s: Square) -> bool {
    ||| ray_attack(g, s, 1, 0, by, PieceType::Rook)
    ||| ray_attack(g, s, 0, 1, by, PieceType::Rook)
    ||| ray_attack(g, s, -1, 0, by, PieceType::Rook)
    ||| ray_attack(g, s, 0, -1, by, PieceType::Rook)
}

/// A bishop, queen or adjacent king of colour `by` attacks `s` along a diagonal.
pub open spec fn diagonal_attack(g: Grid, by: Color, s: Square) -> bool {
    ||| ray_attack(g, s, 1, 1, by, PieceType::Bishop)
    ||| ray_attack(g, s, -1, 1, by, PieceType::Bishop)
    ||| ray_attack(g, s, 1, -1, by, PieceType::Bishop)
    ||| ray_attack(g, s, -1, -1, by, PieceType::Bishop)
}

/// The rank offset, seen from an attacked square, at which an attacking pawn stands.
pub open spec fn pawn_source(by: Color) -> int {
    if by == Color::White {
        -1
    } else {
        1
    }
}

/// A pawn of colour `by` attacks `s`.
pub open spec fn pawn_attack(g: Grid, by: Color, s: Square) -> bool {
    ||| piece_at_offset(g, s, pawn_source(by), 1, PieceType::Pawn.colored(by))
    ||| piece_at_offset(g, s, pawn_source(by), -1, PieceType::Pawn.colored(by))
}

/// A knight of colour `by` attacks `s`.
pub open spec fn knight_attack(g: Grid, by: Color, s: Square) -> bool {
    let n = PieceType::Knight.colored(by);
    ||| piece_at_offset(g, s, 2, 1, n)
    ||| piece_at_offset(g, s, 1, 2, n)
    ||| piece_at_offset(g, s, -2, 1, n)
    ||| piece_at_offset(g, s, 1, -2, n)
    ||| piece_at_offset(g, s, 2, -1, n)
    ||| piece_at_offset(g, s, -1, 2, n)
    ||| piece_at_offset(g, s, -2, -1, n)
    ||| piece_at_offset(g, s, -1, -2, n)
}

/// The square `s` is attacked by a piece of colour `by`.
pub open spec fn attacked_by(g: Grid, by: Color, s: Square) -> bool {
    &&& by != Color::Neither
    &&& straight_attack(g, by, s) || diagonal_attack(g, by, s) || pawn_attack(g, by, s)
        || knight_attack(g, by, s)
}

/// The `i`-th square in the order in which a king is looked for: file by file, each from
/// the first rank up.
pub open spec fn scan_square(i: int) -> Square {
    sq(i % 8, i / 8)
}

/// The king of the given colour that is found first stands on the `i`-th square looked at.
pub open spec fn king_found(g: Grid, color: Color, i: int) -> bool {
    &&& 0 <= i < 64
    &&& at(g, scan_square(i)) == PieceType::King.colored(color)
    &&& forall|j: int| 0 <= j < i ==> at(g, #[trigger] scan_square(j)) != PieceType::King.colored(color)
}

/// The side has a king, and the king that is found first is attacked by the other side.
pub open spec fn in_check(g: Grid, color: Color) -> bool {
    exists|i: int| #[trigger] king_found(g, color, i) && attacked_by(g, color.opposite(), scan_square(i))
}

/// Where a side has its only king on `k`, it is in check exactly if `k` is attacked.
pub proof fn lemma_in_check_single_king(g: Grid, color: Color, k: Square)
    requires
        color != Color::Neither,
        k.valid(),
        forall|t: Square| #[trigger] t.valid() ==> (at(g, t) == PieceType::King.colored(color)) == (t == k),
    ensures
        in_check(g, color) == attacked_by(g, color.opposite(), k),
{
    let i = k.file as int * 8 + k.rank as int;
    assert forall|j: int| 0 <= j < 64 && j != i implies at(g, #[trigger] scan_square(j)) != PieceType::King.colored(color) by {
        assert(scan_square(j).valid());
    }
    assert(king_found(g, color, i));
}

impl Board {
    /// Whether the ray that leaves `sq` in direction `(dr, df)` meets, as its first piece,
    /// one of colour `by` that attacks along it.
    fn ray_hits(board: &[[Piece; 8]; 8], sq: Square, dr: i8, df: i8, slider: PieceType, by: Color) -> (b: bool)
        requires
            sq.valid(),
            is_direction(dr as int, df as int),
            by != Color::Neither,
            slider != PieceType::Empty,
        ensures
            b == ray_attack(*board, sq, dr as int, df as int, by, slider),
    {
        let mut r: i8 = sq.rank as i8 + dr;
        let mut f: i8 = sq.file as i8 + df;
        let mut first = true;
        let ghost mut k: int = 1;
        while on_board([r, f])
            invariant
                sq.valid(),
                is_direction(dr as int, df as int),
                by != Color::Neither,
                slider != PieceType::Empty,
                1 <= k <= 8,
                r == along(sq.rank as int, dr as int, k),
                f == along(sq.file as int, df as int, k),
                first == (k == 1),
                ray_clear(*board, sq, dr as int, df as int, k),
            decreases 8 - k,
        {
            let piece = board[r as usize][f as usize];
            if piece != Piece::Empty {
                let hit = piece == slider.of_color(by) || piece == PieceType::Queen.of_color(by) || (
                first && piece == PieceType::King.of_color(by));
                proof {
                    if hit {
                        assert(slider_at(*board, sq, dr as int, df as int, k, by, slider));
                    } else {
                        assert forall|j: int| !#[trigger] slider_at(*board, sq, dr as int, df as int, j, by, slider) by {
                            if j > k {
                                assert(!empty_along(*board, sq, dr as int, df as int, k));
                            } else if 1 <= j < k {
                                assert(empty_along(*board, sq, dr as int, df as int, j));
                            }
                        }
                    }
                }
                return hit;
            }
            proof {
                k = k + 1;
            }
            first = false;
            r = r + dr;
            f = f + df;
        }
        proof {
            assert forall|j: int| !#[trigger] slider_at(*board, sq, dr as int, df as int, j, by, slider) by {
                if 1 <= j < k {
                    assert(empty_along(*board, sq, dr as int, df as int, j));
                }
            }
        }
        false
    }

    /// Whether one of four rays from `sq` meets a piece of colour `color` that attacks
    /// along it.
    pub fn check_cont_offsets(
        board: &[[Piece; 8]; 8],
        offsets: [[i8; 2]; 4],
        sq: Square,
        this_dir_only: PieceType,
        color: Color,
    ) -> (b: bool)
        requires
            sq.valid(),
            color != Color::Neither,
            this_dir_only != PieceType::Empty,
            forall|i: int| 0 <= i < 4 ==> is_direction(#[trigger] offsets[i][0] as int, offsets[i][1] as int),
        ensures
            b == exists|i: int|
                0 <= i < 4 && #[trigger] ray_attack(
                    *board,
                    sq,
                    offsets[i][0] as int,
                    offsets[i][1] as int,
                    color,
                    this_dir_only,
                ),
    {
        let mut i: usize = 0;
        while i < 4
            invariant
                i <= 4,
                sq.valid(),
                color != Color::Neither,
                this_dir_only != PieceType::Empty,
                forall|j: int| 0 <= j < 4 ==> is_direction(#[trigger] offsets[j][0] as int, offsets[j][1] as int),
                forall|j: int|
                    0 <= j < i ==> !#[trigger] ray_attack(
                        *board,
                        sq,
                        offsets[j][0] as int,
                        offsets[j][1] as int,
                        color,
                        this_dir_only,
                    ),
            decreases 4 - i,
        {
            if Board::ray_hits(board, sq, offsets[i][0], offsets[i][1], this_dir_only, color) {
                return true;
            }
            i += 1;
        }
        false
    }

    /// Whether the piece of kind `this_piece` and colour `color` stands at one of the
    /// offsets from `sq`.
    pub fn check_sing_offsets(
        board: &[[Piece; 8]; 8],
        offsets: &[[i8; 2]],
        sq: Square,
        this_piece: PieceType,
        color: Color,
    ) -> (b: bool)
        requires
            sq.valid(),
            forall|i: int|
                0 <= i < offsets@.len() ==> -100 <= (#[trigger] offsets@[i])[0] <= 100 && -100
                    <= offsets@[i][1] <= 100,
        ensures
            b == exists|i: int|
                0 <= i < offsets@.len() && #[trigger] piece_at_offset(
                    *board,
                    sq,
                    offsets@[i][0] as int,
                    offsets@[i][1] as int,
                    this_piece.colored(color),
                ),
    {
        let wanted = this_piece.of_color(color);
        let mut i: usize = 0;
        while i < offsets.len()
            invariant
                i <= offsets@.len(),
                sq.valid(),
                wanted == this_piece.colored(color),
                forall|j: int|
                    0 <= j < offsets@.len() ==> -100 <= (#[trigger] offsets@[j])[0] <= 100 && -100
                        <= offsets@[j][1] <= 100,
                forall|j: int|
                    0 <= j < i ==> !#[trigger] piece_at_offset(
                        *board,
                        sq,
                        offsets@[j][0] as int,
                        offsets@[j][1] as int,
                        wanted,
                    ),
            decreases offsets@.len() - i,
        {
            let offset = offsets[i];
            let r: i8 = sq.rank as i8 + offset[0];
            let f: i8 = sq.file as i8 + offset[1];
            if on_board([r, f]) && wanted != Piece::Empty {
                if board[r as usize][f as usize] == wanted {
                    assert(piece_at_offset(*board, sq, offsets@[i as int][0] as int, offsets@[i as int][1] as int, wanted));
                    return true;
                }
            }
            i += 1;
        }
        false
    }

    /// Whether a piece of colour `color` attacks the square.
    pub fn under_attack_by(board: &[[Piece; 8]; 8], color: Color, sq: Square) -> (b: bool)
        requires
            sq.valid(),
        ensures
            b == attacked_by(*board, color, sq),
    {
        if color == Color::Neither {
            return false;
        }
        let orth_offsets: [[i8; 2]; 4] = [[1, 0], [0, 1], [-1, 0], [0, -1]];
        let diag_offsets: [[i8; 2]; 4] = [[1, 1], [-1, 1], [1, -1], [-1, -1]];
        let pawn_offsets: [[i8; 2]; 2] = if color == Color::White {
            [[-1, 1], [-1, -1]]
        } else {
            [[1, 1], [1, -1]]
        };
        let knight_offsets: [[i8; 2]; 8] = [
            [2, 1],
            [1, 2],
            [-2, 1],
            [1, -2],
            [2, -1],
            [-1, 2],
            [-2, -1],
            [-1, -2],
        ];
        let straight = Board::check_cont_offsets(board, orth_offsets, sq, PieceType::Rook, color);
        if straight {
            return true;
        }
        let diagonal = Board::check_cont_offsets(board, diag_offsets, sq, PieceType::Bishop, color);
        if diagonal {
            return true;
        }
        let pawn = Board::check_sing_offsets(board, pawn_offsets.as_slice(), sq, PieceType::Pawn, color);
        if pawn {
            return true;
        }
        let knight = Board::check_sing_offsets(board, knight_offsets.as_slice(), sq, PieceType::Knight, color);
        knight
    }

    /// Whether the king of the given colour is attacked. A side without a king is not in
    /// check.
    pub fn in_check(board: &[[Piece; 8]; 8], color: Color) -> (b: bool)
        requires
            color != Color::Neither,
        ensures
            b == in_check(*board, color),
    {
        let target_piece = if color == Color::White {
            Piece::WKing
        } else {
            Piece::BKing
        };
        let mut file: usize = 0;
        while file < 8
            invariant
                file <= 8,
                color != Color::Neither,
                target_piece == PieceType::King.colored(color),
                forall|j: int| 0 <= j < 8 * file ==> at(*board, #[trigger] scan_square(j)) != target_piece,
            decreases 8 - file,
        {
            let mut rank: usize = 0;
            while rank < 8
                invariant
                    file < 8,
                    rank <= 8,
                    color != Color::Neither,
                    target_piece == PieceType::King.colored(color),
                    forall|j: int|
                        0 <= j < 8 * file + rank ==> at(*board, #[trigger] scan_square(j)) != target_piece,
                decreases 8 - rank,
            {
                if board[rank][file] == target_piece {
                    let ghost i = 8 * file + rank;
                    assert(king_found(*board, color, i));
                    let b = Board::under_attack_by(
                        board,
                        color.switch(),
                        Square { rank: rank as u8, file: file as u8 },
                    );
                    proof {
                        assert forall|j: int| #[trigger] king_found(*board, color, j) implies j == i by {
                            if j < i {
                            } else if j > i {
                            }
                        }
                    }
                    return b;
                }
                rank += 1;
            }
            file += 1;
        }
        false
    }
}

} // verus!
