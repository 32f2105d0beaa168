//! Mobility: how many squares each piece can go to.

use vstd::prelude::*;
use crate::attack::{along, is_direction, on_grid};
use crate::board::{on_board, Grid, Square};
use crate::piece::{Color, Piece, PieceType};
use crate::sums::{cells_sum, grid_sum, lemma_grid_sum_ext, lemma_rows_sum_bounds, rows_sum};

verus! {

/// A list of offsets as pairs of integers.
pub open spec fn offsets_of(list: Seq<[i8; 2]>) -> Seq<(int, int)> {
    Seq::new(list.len(), |i: int| (list[i][0] as int, list[i][1] as int))
}

/// The eight steps of a king, which are also the eight directions of a queen.
pub open spec fn king_steps() -> Seq<(int, int)> {
    seq![(1, 1), (0, 1), (-1, 1), (-1, 0), (-1, -1), (0, -1), (1, -1), (1, 0)]
}

/// The four directions of a rook.
pub open spec fn rook_directions() -> Seq<(int, int)> {
    seq![(0, 1), (-1, 0), (0, -1), (1, 0)]
}

/// The four directions of a bishop.
pub open spec fn bishop_directions() -> Seq<(int, int)> {
    seq![(1, 1), (-1, 1), (-1, -1), (1, -1)]
}

/// The eight jumps of a knight.
pub open spec fn knight_jumps() -> Seq<(int, int)> {
    seq![(2, 1), (1, 2), (-2, 1), (1, -2), (2, -1), (-1, 2), (-2, -1), (-1, -2)]
}

/// 1 if a piece of the given colour can step from `s` to the square at the offset, which
/// must be on the board and empty or held by the enemy; else 0.
pub open spec fn step_free(g: Grid, s: Square, dr: int, df: int, color: Color) -> int {
    let r = s.rank + dr;
    let f = s.file + df;
    if on_grid(r, f) && (g[r][f] == Piece::Empty || g[r][f].color_of() == color.opposite()) {
        1
    } else {
        0
    }
}

/// The number of the first `n` offsets to which a piece of the given colour can step.
pub open spec fn steps_free(g: Grid, s: Square, color: Color, offsets: Seq<(int, int)>, n: int) -> int
    decreases n,
{
    if n <= 0 {
        0
    } else {
        steps_free(g, s, color, offsets, n - 1) + step_free(
            g,
            s,
            offsets[n - 1].0,
            offsets[n - 1].1,
            color,
        )
    }
}

/// The number of squares that a piece of the given colour can slide to along a ray from
/// `s`, counted from the `k`-th square of the ray on, the squares before it being empty:
/// every empty square up to the first piece, and that piece's square if it is an enemy.
pub open spec fn ray_free(g: Grid, s: Square, dr: int, df: int, color: Color, k: int) -> int
    decreases 8 - k,
{
    let r = along(s.rank as int, dr, k);
    let f = along(s.file as int, df, k);
    if k < 1 || k >= 8 || !on_grid(r, f) {
        0
    } else if g[r][f] == Piece::Empty {
        1 + ray_free(g, s, dr, df, color, k + 1)
    } else if g[r][f].color_of() == color.opposite() {
        1
    } else {
        0
    }
}

/// The number of squares that a piece of the given colour can slide to along the first
/// `n` of the given directions.
pub open spec fn rays_free(g: Grid, s: Square, color: Color, offsets: Seq<(int, int)>, n: int) -> int
    decreases n,
{
    if n <= 0 {
        0
    } else {
        rays_free(g, s, color, offsets, n - 1) + ray_free(
            g,
            s,
            offsets[n - 1].0,
            offsets[n - 1].1,
            color,
            1,
        )
    }
}

/// The mobility of a pawn of the given colour on `s`: 10 on its last rank; else one for
/// each enemy piece diagonally ahead, one more if the square ahead is empty, and another
/// if the pawn is at home and the square two ahead is empty as well.
pub open spec fn pawn_mobility(g: Grid, s: Square, color: Color) -> int {
    let ahead = if color == Color::White {
        1int
    } else {
        -1int
    };
    let last = if color == Color::White {
        7int
    } else {
        0int
    };
    let home = if color == Color::White {
        1int
    } else {
        6int
    };
    let r = s.rank + ahead;
    let left: int = if s.file > 0 && g[r][s.file - 1].color_of() == color.opposite() {
        1
    } else {
        0
    };
    let right: int = if s.file < 7 && g[r][s.file + 1].color_of() == color.opposite() {
        1
    } else {
        0
    };
    if s.rank == last {
        10
    } else if g[r][s.file as int] != Piece::Empty {
        left + right
    } else if s.rank == home && g[home + 2 * ahead][s.file as int] == Piece::Empty {
        left + right + 2
    } else {
        left + right + 1
    }
}

/// The mobility of the piece on `s`: the number of squares it can go to, other pieces of
/// its own side in its way, and no regard paid to check.
pub open spec fn mobility_of(g: Grid, s: Square) -> int {
    let p = g[s.rank as int][s.file as int];
    let c = p.color_of();
    match p.type_of() {
        PieceType::Empty => 0,
        PieceType::King => steps_free(g, s, c, king_steps(), 8),
        PieceType::Queen => rays_free(g, s, c, king_steps(), 8),
        PieceType::Rook => rays_free(g, s, c, rook_directions(), 4),
        PieceType::Bishop => rays_free(g, s, c, bishop_directions(), 4),
        PieceType::Knight => steps_free(g, s, c, knight_jumps(), 8),
        PieceType::Pawn => pawn_mobility(g, s, c),
    }
}

/// What a blocked pawn on its home rank costs, by file.
pub const BLOCKED_PAWN: [i32; 8] = [-5, -4, -2, -15, -15, 0, -4, -5];

/// What a piece's mobility `m` counts for, without sign: a queen's is capped at half the
/// number of moves made, a bishop without a move costs 8, and a pawn at home without a
/// move costs what its file says.
pub open spec fn mobility_worth(p: Piece, m: int, r: int, f: int, move_num: int) -> int {
    match p.type_of() {
        PieceType::Empty => 0,
        PieceType::Queen => if m <= move_num / 2 {
            m
        } else {
            move_num / 2
        },
        PieceType::Bishop => if m == 0 {
            -8
        } else {
            m
        },
        PieceType::Pawn => if m == 0 && p.own_rank(r) == 1 {
            BLOCKED_PAWN[f] as int
        } else {
            m
        },
        _ => m,
    }
}

/// The worth of the mobility of the piece on a square, counted for White and against
/// Black.
pub open spec fn mobility_term(g: Grid, movabs: [[u8; 8]; 8], move_num: int) -> spec_fn(int, int) -> int {
    |r: int, f: int|
        g[r][f].color_of().signed(mobility_worth(g[r][f], movabs[r][f] as int, r, f, move_num))
}

/// The worth of White's mobility less that of Black's, given each piece's mobility.
pub open spec fn mobility_balance(g: Grid, movabs: [[u8; 8]; 8], move_num: int) -> int {
    grid_sum(mobility_term(g, movabs, move_num))
}

/// The worth of the mobility of the piece on a square as the position gives it, counted
/// for White and against Black.
pub open spec fn mobility_score_term(g: Grid, move_num: int) -> spec_fn(int, int) -> int {
    |r: int, f: int|
        g[r][f].color_of().signed(
            mobility_worth(g[r][f], mobility_of(g, Square { rank: r as u8, file: f as u8 }), r, f, move_num),
        )
}

/// The worth of White's mobility less that of Black's in a position after `move_num`
/// moves.
pub open spec fn mobility_score(g: Grid, move_num: int) -> int {
    grid_sum(mobility_score_term(g, move_num))
}

/// A piece can step to at most as many squares as there are offsets.
pub proof fn lemma_steps_free_bounds(g: Grid, s: Square, color: Color, offsets: Seq<(int, int)>, n: int)
    requires
        0 <= n,
    ensures
        0 <= steps_free(g, s, color, offsets, n) <= n,
    decreases n,
{
    if n > 0 {
        lemma_steps_free_bounds(g, s, color, offsets, n - 1);
    }
}

/// A piece can slide to at most the squares that are left of a ray.
pub proof fn lemma_ray_free_bounds(g: Grid, s: Square, dr: int, df: int, color: Color, k: int)
    requires
        1 <= k <= 8,
    ensures
        0 <= ray_free(g, s, dr, df, color, k) <= 8 - k,
    decreases 8 - k,
{
    if k < 8 {
        lemma_ray_free_bounds(g, s, dr, df, color, k + 1);
    }
}

/// A piece can slide to at most seven squares in each direction.
pub proof fn lemma_rays_free_bounds(g: Grid, s: Square, color: Color, offsets: Seq<(int, int)>, n: int)
    requires
        0 <= n,
    ensures
        0 <= rays_free(g, s, color, offsets, n) <= 7 * n,
    decreases n,
{
    if n > 0 {
        lemma_rays_free_bounds(g, s, color, offsets, n - 1);
        lemma_ray_free_bounds(g, s, offsets[n - 1].0, offsets[n - 1].1, color, 1);
    }
}

/// No piece can go to more than 56 squares.
pub proof fn lemma_mobility_bounds(g: Grid, s: Square)
    ensures
        0 <= mobility_of(g, s) <= 56,
{
    let c = g[s.rank as int][s.file as int].color_of();
    lemma_steps_free_bounds(g, s, c, king_steps(), 8);
    lemma_steps_free_bounds(g, s, c, knight_jumps(), 8);
    lemma_rays_free_bounds(g, s, c, king_steps(), 8);
    lemma_rays_free_bounds(g, s, c, rook_directions(), 4);
    lemma_rays_free_bounds(g, s, c, bishop_directions(), 4);
}

/// The mobility score lies between -3584 and 3584 whatever the number of moves made.
pub proof fn lemma_mobility_score_bounds(g: Grid, move_num: int)
    requires
        0 <= move_num,
    ensures
        -3584 <= mobility_score(g, move_num) <= 3584,
{
    let t = mobility_score_term(g, move_num);
    assert forall|i: int, j: int| 0 <= i < 8 && 0 <= j < 8 implies -56 <= #[trigger] t(i, j) <= 56 by {
        lemma_mobility_bounds(g, Square { rank: i as u8, file: j as u8 });
    }
    lemma_rows_sum_bounds(t, 8, -56, 56);
}

/// With each piece's true mobility given, the balance is the position's mobility score.
pub proof fn lemma_mobility_score(g: Grid, movabs: [[u8; 8]; 8], move_num: int)
    requires
        forall|r: int, f: int|
            0 <= r < 8 && 0 <= f < 8 ==> #[trigger] movabs[r][f] == mobility_of(
                g,
                Square { rank: r as u8, file: f as u8 },
            ),
    ensures
        mobility_balance(g, movabs, move_num) == mobility_score(g, move_num),
{
    let t = mobility_term(g, movabs, move_num);
    let u = mobility_score_term(g, move_num);
    lemma_grid_sum_ext(t, u);
}

/// The worth of White's mobility less that of Black's, from each piece's mobility as
/// given square by square.
pub fn movability_coeff(board: &[[Piece; 8]; 8], movabs: &[[u8; 8]; 8], move_num: usize) -> (v: i32)
    ensures
        v == mobility_balance(*board, *movabs, move_num as int),
        -16320 <= v <= 16320,
{
    let half: i32 = if move_num >= 510 {
        255
    } else {
        (move_num / 2) as i32
    };
    let ghost t = mobility_term(*board, *movabs, move_num as int);
    let mut coeff: i32 = 0;
    let mut r: usize = 0;
    while r < 8
        invariant
            r <= 8,
            t == mobility_term(*board, *movabs, move_num as int),
            half == (if move_num >= 510 { 255 } else { move_num as int / 2 }),
            coeff == rows_sum(t, r as int),
            -2040 * r <= coeff <= 2040 * r,
        decreases 8 - r,
    {
        let mut f: usize = 0;
        while f < 8
            invariant
                r < 8,
                f <= 8,
                t == mobility_term(*board, *movabs, move_num as int),
                half == (if move_num >= 510 { 255 } else { move_num as int / 2 }),
                coeff == rows_sum(t, r as int) + cells_sum(t, r as int, f as int),
                -2040 * r - 255 * f <= coeff <= 2040 * r + 255 * f,
            decreases 8 - f,
        {
            let piece = board[r][f];
            let m: i32 = movabs[r][f] as i32;
            let worth: i32 = match piece.piece_type() {
                PieceType::Empty => 0,
                PieceType::Queen => if m <= half {
                    m
                } else {
                    half
                },
                PieceType::Bishop => if m == 0 {
                    -8
                } else {
                    m
                },
                PieceType::Pawn => {
                    let home: usize = if piece.color() == Color::White {
                        1
                    } else {
                        6
                    };
                    if r == home && m == 0 {
                        BLOCKED_PAWN[f]
                    } else {
                        m
                    }
                },
                _ => m,
            };
            match piece.color() {
                Color::Neither => {},
                Color::White => {
                    coeff += worth;
                },
                Color::Black => {
                    coeff -= worth;
                },
            }
            f += 1;
        }
        r += 1;
    }
    coeff
}

/// The mobility of every piece, square by square.
pub fn movabilities(board: &[[Piece; 8]; 8]) -> (movabs: [[u8; 8]; 8])
    ensures
        forall|r: int, f: int|
            0 <= r < 8 && 0 <= f < 8 ==> #[trigger] movabs[r][f] == mobility_of(
                *board,
                Square { rank: r as u8, file: f as u8 },
            ),
{
    let mut movabs: [[u8; 8]; 8] = [[0u8;8];8];
    let king: [[i8; 2]; 8] = [[1, 1], [0, 1], [-1, 1], [-1, 0], [-1, -1], [0, -1], [1, -1], [1, 0]];
    let rook: [[i8; 2]; 4] = [[0, 1], [-1, 0], [0, -1], [1, 0]];
    let bishop: [[i8; 2]; 4] = [[1, 1], [-1, 1], [-1, -1], [1, -1]];
    let knight: [[i8; 2]; 8] = [
        [2, 1],
        [1, 2],
        [-2, 1],
        [1, -2],
        [2, -1],
        [-1, 2],
        [-2, -1],
        [-1, -2],
    ];
    let mut rank: usize = 0;
    while rank < 8
        invariant
            rank <= 8,
            offsets_of(king@) == king_steps(),
            offsets_of(rook@) == rook_directions(),
            offsets_of(bishop@) == bishop_directions(),
            offsets_of(knight@) == knight_jumps(),
            forall|r: int, f: int|
                0 <= r < rank && 0 <= f < 8 ==> #[trigger] movabs[r][f] == mobility_of(
                    *board,
                    Square { rank: r as u8, file: f as u8 },
                ),
        decreases 8 - rank,
    {
        let mut file: usize = 0;
        while file < 8
            invariant
                rank < 8,
                file <= 8,
                offsets_of(king@) == king_steps(),
                offsets_of(rook@) == rook_directions(),
                offsets_of(bishop@) == bishop_directions(),
                offsets_of(knight@) == knight_jumps(),
                forall|r: int, f: int|
                    0 <= r < rank && 0 <= f < 8 ==> #[trigger] movabs[r][f] == mobility_of(
                        *board,
                        Square { rank: r as u8, file: f as u8 },
                    ),
                forall|f: int|
                    0 <= f < file ==> #[trigger] movabs[rank as int][f] == mobility_of(
                        *board,
                        Square { rank: rank as u8, file: f as u8 },
                    ),
            decreases 8 - file,
        {
            let piece = board[rank][file];
            let sq = Square { rank: rank as u8, file: file as u8 };
            let color = piece.color();
            let m: u8 = match piece.piece_type() {
                PieceType::Empty => 0,
                PieceType::King => tally_sing_movab(board, &sq, color, king.as_slice()),
                PieceType::Queen => tally_cont_movab(board, &sq, color, king.as_slice()),
                PieceType::Rook => tally_cont_movab(board, &sq, color, rook.as_slice()),
                PieceType::Bishop => tally_cont_movab(board, &sq, color, bishop.as_slice()),
                PieceType::Knight => tally_sing_movab(board, &sq, color, knight.as_slice()),
                PieceType::Pawn => if color == Color::White {
                    white_pawn_movab(board, &sq)
                } else {
                    black_pawn_movab(board, &sq)
                },
            };
            movabs[rank][file] = m;
            file += 1;
        }
        rank += 1;
    }
    movabs
}

/// The mobility of a white pawn on `sq`.
pub fn white_pawn_movab(board: &[[Piece; 8]; 8], sq: &Square) -> (tot: u8)
    requires
        sq.valid(),
    ensures
        tot == pawn_mobility(*board, *sq, Color::White),
{
    if sq.rank == 7 {
        return 10;
    }
    let mut tot: u8 = 0;
    if sq.file > 0 && board[sq.rank as usize + 1][sq.file as usize - 1].color() == Color::Black {
        tot += 1;
    }
    if sq.file < 7 && board[sq.rank as usize + 1][sq.file as usize + 1].color() == Color::Black {
        tot += 1;
    }
    if board[sq.rank as usize + 1][sq.file as usize] != Piece::Empty {
        return tot;
    }
    if sq.rank == 1 && board[3][sq.file as usize] == Piece::Empty {
        tot += 1;
    }
    tot + 1
}

/// The mobility of a black pawn on `sq`.
pub fn black_pawn_movab(board: &[[Piece; 8]; 8], sq: &Square) -> (tot: u8)
    requires
        sq.valid(),
    ensures
        tot == pawn_mobility(*board, *sq, Color::Black),
{
    if sq.rank == 0 {
        return 10;
    }
    let mut tot: u8 = 0;
    if sq.file > 0 && board[sq.rank as usize - 1][sq.file as usize - 1].color() == Color::White {
        tot += 1;
    }
    if sq.file < 7 && board[sq.rank as usize - 1][sq.file as usize + 1].color() == Color::White {
        tot += 1;
    }
    if board[sq.rank as usize - 1][sq.file as usize] != Piece::Empty {
        return tot;
    }
    if sq.rank == 6 && board[4][sq.file as usize] == Piece::Empty {
        tot += 1;
    }
    tot + 1
}

/// The number of squares that a piece of colour `color_moving` can slide to from `sq`
/// along one direction.
fn tally_ray(board: &[[Piece; 8]; 8], sq: &Square, color_moving: Color, dr: i8, df: i8) -> (tally: u8)
    requires
        sq.valid(),
        is_direction(dr as int, df as int),
        color_moving != Color::Neither,
    ensures
        tally == ray_free(*board, *sq, dr as int, df as int, color_moving, 1),
        tally <= 7,
{
    let enemy = color_moving.switch();
    let mut r: i8 = sq.rank as i8 + dr;
    let mut f: i8 = sq.file as i8 + df;
    let mut tally: u8 = 0;
    let ghost mut k: int = 1;
    while on_board([r, f])
        invariant
            sq.valid(),
            is_direction(dr as int, df as int),
            enemy == color_moving.opposite(),
            1 <= k <= 8,
            r == along(sq.rank as int, dr as int, k),
            f == along(sq.file as int, df as int, k),
            tally == k - 1,
            tally + ray_free(*board, *sq, dr as int, df as int, color_moving, k) == ray_free(
                *board,
                *sq,
                dr as int,
                df as int,
                color_moving,
                1,
            ),
        decreases 8 - k,
    {
        let piece_hit = board[r as usize][f as usize];
        if piece_hit != Piece::Empty {
            if piece_hit.color() == enemy {
                tally += 1;
            }
            return tally;
        }
        tally += 1;
        r = r + dr;
        f = f + df;
        proof {
            k = k + 1;
        }
    }
    tally
}

/// The number of squares that a piece of colour `color_moving` can slide to from `sq`
/// along the given directions.
pub fn tally_cont_movab(board: &[[Piece; 8]; 8], sq: &Square, color_moving: Color, offsets: &[[i8; 2]]) -> (tally: u8)
    requires
        sq.valid(),
        color_moving != Color::Neither,
        offsets@.len() <= 8,
        forall|i: int|
            0 <= i < offsets@.len() ==> is_direction(
                (#[trigger] offsets@[i])[0] as int,
                offsets@[i][1] as int,
            ),
    ensures
        tally == rays_free(*board, *sq, color_moving, offsets_of(offsets@), offsets@.len() as int),
{
    let mut tally: u8 = 0;
    let mut i: usize = 0;
    while i < offsets.len()
        invariant
            i <= offsets@.len() <= 8,
            sq.valid(),
            color_moving != Color::Neither,
            forall|j: int|
                0 <= j < offsets@.len() ==> is_direction(
                    (#[trigger] offsets@[j])[0] as int,
                    offsets@[j][1] as int,
                ),
            tally == rays_free(*board, *sq, color_moving, offsets_of(offsets@), i as int),
            tally <= 7 * i,
        decreases offsets@.len() - i,
    {
        let offset = offsets[i];
        let along_ray = tally_ray(board, sq, color_moving, offset[0], offset[1]);
        tally += along_ray;
        i += 1;
    }
    tally
}

/// The number of the given offsets to which a piece of colour `color_moving` can step
/// from `sq`. Not for pawns.
pub fn tally_sing_movab(board: &[[Piece; 8]; 8], sq: &Square, color_moving: Color, offsets: &[[i8; 2]]) -> (tally: u8)
    requires
        sq.valid(),
        color_moving != Color::Neither,
        offsets@.len() <= 255,
        forall|i: int|
            0 <= i < offsets@.len() ==> -100 <= (#[trigger] offsets@[i])[0] <= 100 && -100
                <= offsets@[i][1] <= 100,
    ensures
        tally == steps_free(*board, *sq, color_moving, offsets_of(offsets@), offsets@.len() as int),
{
    let enemy = color_moving.switch();
    let mut tally: u8 = 0;
    let mut i: usize = 0;
    while i < offsets.len()
        invariant
            i <= offsets@.len() <= 255,
            sq.valid(),
            enemy == color_moving.opposite(),
            forall|j: int|
                0 <= j < offsets@.len() ==> -100 <= (#[trigger] offsets@[j])[0] <= 100 && -100
                    <= offsets@[j][1] <= 100,
            tally == steps_free(*board, *sq, color_moving, offsets_of(offsets@), i as int),
            tally <= i,
        decreases offsets@.len() - i,
    {
        let offset = offsets[i];
        let r: i8 = sq.rank as i8 + offset[0];
        let f: i8 = sq.file as i8 + offset[1];
        if on_board([r, f]) {
            let piece_hit = board[r as usize][f as usize];
            if piece_hit == Piece::Empty || piece_hit.color() == enemy {
                tally += 1;
            }
        }
        i += 1;
    }
    tally
}

} // verus!
