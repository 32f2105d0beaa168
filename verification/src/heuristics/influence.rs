//! Influence: which squares each piece bears on, seen through its own pieces.

use vstd::prelude::*;
use crate::attack::{along, is_direction, on_grid};
use crate::board::{at, on_board, Grid, Square};
use crate::heuristics::movability::{king_steps, knight_jumps, offsets_of};
use crate::piece::{Color, Piece, PieceType};
use crate::sums::{cells_sum, grid_sum, rows_sum};

verus! {

/// The grid of influences, one signed number for each square.
pub type Influences = [[i32; 8]; 8];

/// The number of king steps from one square to another.
pub open spec fn king_distance(s: Square, t: Square) -> int {
    let dr = if s.rank >= t.rank {
        s.rank - t.rank
    } else {
        t.rank - s.rank
    };
    let df = if s.file >= t.file {
        s.file - t.file
    } else {
        t.file - s.file
    };
    if dr >= df {
        dr
    } else {
        df
    }
}

/// The square `t` lies on the ray that leaves `s` in direction `(dr, df)`.
pub open spec fn on_ray(s: Square, dr: int, df: int, t: Square) -> bool {
    let k = king_distance(s, t);
    k >= 1 && t.rank == along(s.rank as int, dr, k) && t.file == along(s.file as int, df, k)
}

/// A slider of the given colour bears on the squares behind this piece: the square is
/// empty, or holds the mover's own queen, or its own rook on a straight ray, or its own
/// bishop on a diagonal one.
pub open spec fn transparent(p: Piece, color: Color, diag: bool) -> bool {
    ||| p == Piece::Empty
    ||| p == PieceType::Queen.colored(color)
    ||| p == (if diag {
        PieceType::Bishop
    } else {
        PieceType::Rook
    }).colored(color)
}

/// The `j`-th square of the ray is on the board and can be seen through.
pub open spec fn transparent_along(g: Grid, s: Square, dr: int, df: int, color: Color, diag: bool, j: int) -> bool {
    let r = along(s.rank as int, dr, j);
    let f = along(s.file as int, df, j);
    on_grid(r, f) && transparent(g[r][f], color, diag)
}

/// The first `k - 1` squares of the ray can all be seen through.
#[verifier::opaque]
pub open spec fn see_through(g: Grid, s: Square, dr: int, df: int, color: Color, diag: bool, k: int) -> bool {
    forall|j: int| 1 <= j < k ==> #[trigger] transparent_along(g, s, dr, df, color, diag, j)
}

/// The influence that is left of two: the one of smaller size, the first if they are
/// equal in size.
pub open spec fn weaker(a: int, b: int) -> int {
    let size_a = if a >= 0 {
        a
    } else {
        -a
    };
    let size_b = if b >= 0 {
        b
    } else {
        -b
    };
    if size_a <= size_b {
        a
    } else {
        b
    }
}

/// The influence that a piece of each kind carries in the graded count, in which the
/// cheaper a piece is the more it weighs: a king 1, a queen 4, a rook 16, a bishop or
/// knight 64, a pawn 512; positive for White, negative for Black.
pub open spec fn graded(p: Piece) -> int {
    p.color_of().signed(
        match p.type_of() {
            PieceType::Empty => 0int,
            PieceType::King => 1,
            PieceType::Queen => 4,
            PieceType::Rook => 16,
            PieceType::Bishop => 64,
            PieceType::Knight => 64,
            PieceType::Pawn => 512,
        },
    )
}

/// The influence with which a ray arrives on its `k`-th square. Where `smart` is not
/// set, it is `w` all along. Where it is, every piece that the ray has passed through
/// leaves it the weaker of what arrived and that piece's own graded influence.
#[verifier::opaque]
pub open spec fn ray_strength(g: Grid, s: Square, dr: int, df: int, smart: bool, w: int, k: int) -> int
    decreases k,
{
    if !smart || k <= 1 {
        w
    } else {
        let before = ray_strength(g, s, dr, df, smart, w, k - 1);
        let passed = g[along(s.rank as int, dr, k - 1)][along(s.file as int, df, k - 1)];
        if passed != Piece::Empty {
            weaker(before, graded(passed))
        } else {
            before
        }
    }
}

/// The direction points diagonally ahead for a pawn of the given colour.
pub open spec fn pawn_ahead(color: Color, dr: int) -> bool {
    if color == Color::White {
        dr > 0
    } else {
        dr < 0
    }
}

/// What the ray that leaves `s` in direction `(dr, df)` adds to the square `t`: its
/// strength on arrival if `t` lies on the ray and all squares before it can be seen
/// through; on a diagonal ray also if the square just before `t` is the first that cannot
/// be seen through and holds a pawn of the mover's colour that attacks along the ray,
/// and then the strength with which the ray arrived on the pawn; else nothing.
#[verifier::opaque]
pub open spec fn ray_gives(
    g: Grid,
    s: Square,
    dr: int,
    df: int,
    color: Color,
    diag: bool,
    smart: bool,
    w: int,
    t: Square,
) -> int {
    let k = king_distance(s, t);
    if !on_ray(s, dr, df, t) {
        0
    } else if see_through(g, s, dr, df, color, diag, k) {
        ray_strength(g, s, dr, df, smart, w, k)
    } else if diag && k >= 2 && see_through(g, s, dr, df, color, diag, k - 1) && g[along(
        s.rank as int,
        dr,
        k - 1,
    )][along(s.file as int, df, k - 1)] == PieceType::Pawn.colored(color) && pawn_ahead(color, dr) {
        ray_strength(g, s, dr, df, smart, w, k - 1)
    } else {
        0
    }
}

/// The strength of a ray never grows beyond the influence it set out with.
pub proof fn lemma_ray_strength_bounds(g: Grid, s: Square, dr: int, df: int, smart: bool, w: int, k: int)
    ensures
        -w <= ray_strength(g, s, dr, df, smart, w, k) <= w || w <= ray_strength(
            g,
            s,
            dr,
            df,
            smart,
            w,
            k,
        ) <= -w,
    decreases k,
{
    reveal(ray_strength);
    if smart && k > 1 {
        lemma_ray_strength_bounds(g, s, dr, df, smart, w, k - 1);
    }
}

/// How the strength of a ray changes from one square to the next.
pub proof fn lemma_ray_strength_step(g: Grid, s: Square, dr: int, df: int, smart: bool, w: int, k: int)
    requires
        1 <= k,
    ensures
        ray_strength(g, s, dr, df, smart, w, 1) == w,
        ray_strength(g, s, dr, df, smart, w, k + 1) == (if smart && g[along(s.rank as int, dr, k)][along(
            s.file as int,
            df,
            k,
        )] != Piece::Empty {
            weaker(
                ray_strength(g, s, dr, df, smart, w, k),
                graded(g[along(s.rank as int, dr, k)][along(s.file as int, df, k)]),
            )
        } else {
            ray_strength(g, s, dr, df, smart, w, k)
        }),
{
    reveal_with_fuel(ray_strength, 2);
}

/// A ray that can be seen through up to a square, and through that square, can be seen
/// through up to the next.
pub proof fn lemma_see_through_step(g: Grid, s: Square, dr: int, df: int, color: Color, diag: bool, k: int)
    requires
        k >= 1 ==> see_through(g, s, dr, df, color, diag, k) && transparent_along(
            g,
            s,
            dr,
            df,
            color,
            diag,
            k,
        ),
    ensures
        see_through(g, s, dr, df, color, diag, 1),
        see_through(g, s, dr, df, color, diag, k + 1),
{
    reveal(see_through);
}

/// What a ray adds to a square is never more than the influence it set out with.
pub proof fn lemma_ray_gives_bounds(
    g: Grid,
    s: Square,
    dr: int,
    df: int,
    color: Color,
    diag: bool,
    smart: bool,
    w: int,
    t: Square,
)
    ensures
        -w <= ray_gives(g, s, dr, df, color, diag, smart, w, t) <= w || w <= ray_gives(
            g,
            s,
            dr,
            df,
            color,
            diag,
            smart,
            w,
            t,
        ) <= -w,
{
    reveal(ray_gives);
    let k = king_distance(s, t);
    lemma_ray_strength_bounds(g, s, dr, df, smart, w, k);
    lemma_ray_strength_bounds(g, s, dr, df, smart, w, k - 1);
}

/// The graded influence of a piece.
pub fn graded_of(p: Piece) -> (v: i32)
    ensures
        v == graded(p),
        -512 <= v <= 512,
{
    match p {
        Piece::Empty => 0,
        Piece::WKing => 1,
        Piece::WQueen => 4,
        Piece::WRook => 16,
        Piece::WBishop => 64,
        Piece::WKnight => 64,
        Piece::WPawn => 512,
        Piece::BKing => -1,
        Piece::BQueen => -4,
        Piece::BRook => -16,
        Piece::BBishop => -64,
        Piece::BKnight => -64,
        Piece::BPawn => -512,
    }
}

/// Every influence of the grid lies within `limit` of zero.
pub open spec fn within(infs: Influences, limit: int) -> bool {
    forall|r: int, f: int| 0 <= r < 8 && 0 <= f < 8 ==> -limit <= #[trigger] infs[r][f] <= limit
}

/// What a ray has added to the square `t` once it has gone over its first `k - 1`
/// squares, all of which could be seen through.
#[verifier::opaque]
pub open spec fn walked(g: Grid, s: Square, dr: int, df: int, smart: bool, w: int, k: int, t: Square) -> int {
    if on_ray(s, dr, df, t) && king_distance(s, t) < k {
        ray_strength(g, s, dr, df, smart, w, king_distance(s, t))
    } else {
        0
    }
}

/// Going over one more square adds the ray's strength to that square and to no other.
pub proof fn lemma_walk_step(g: Grid, s: Square, dr: int, df: int, smart: bool, w: int, k: int, t: Square)
    requires
        s.valid(),
        t.valid(),
        is_direction(dr, df),
        1 <= k,
    ensures
        walked(g, s, dr, df, smart, w, k + 1, t) == walked(g, s, dr, df, smart, w, k, t) + (if t.rank
            == along(s.rank as int, dr, k) && t.file == along(s.file as int, df, k) {
            ray_strength(g, s, dr, df, smart, w, k)
        } else {
            0
        }),
        walked(g, s, dr, df, smart, w, 1, t) == 0,
        !(t.rank == along(s.rank as int, dr, k + 1) && t.file == along(s.file as int, df, k + 1))
            || walked(g, s, dr, df, smart, w, k + 1, t) == 0,
        -1024 <= w <= 1024 ==> -1024 <= walked(g, s, dr, df, smart, w, k, t) <= 1024,
{
    reveal(walked);
    lemma_ray_strength_bounds(g, s, dr, df, smart, w, king_distance(s, t));
}

/// Where the ray leaves the board, what it has added is what it gives.
pub proof fn lemma_walk_end(
    g: Grid,
    s: Square,
    dr: int,
    df: int,
    color: Color,
    diag: bool,
    smart: bool,
    w: int,
    k: int,
    t: Square,
)
    requires
        s.valid(),
        t.valid(),
        is_direction(dr, df),
        1 <= k,
        see_through(g, s, dr, df, color, diag, k),
        !on_grid(along(s.rank as int, dr, k), along(s.file as int, df, k)),
    ensures
        ray_gives(g, s, dr, df, color, diag, smart, w, t) == walked(g, s, dr, df, smart, w, k, t),
{
    reveal(walked);
    reveal(ray_gives);
    reveal(see_through);
}

/// The ray stops on its `k`-th square and is passed on by a pawn that stands there.
pub open spec fn relayed(g: Grid, s: Square, dr: int, df: int, color: Color, diag: bool, k: int) -> bool {
    &&& diag
    &&& on_grid(along(s.rank as int, dr, k + 1), along(s.file as int, df, k + 1))
    &&& g[along(s.rank as int, dr, k)][along(s.file as int, df, k)] == PieceType::Pawn.colored(color)
    &&& pawn_ahead(color, dr)
}

/// Where the ray meets a piece that cannot be seen through, what it gives is what it has
/// added up to that piece's square, and its strength once more on the next square if a
/// pawn passes it on.
pub proof fn lemma_walk_stop(
    g: Grid,
    s: Square,
    dr: int,
    df: int,
    color: Color,
    diag: bool,
    smart: bool,
    w: int,
    k: int,
    t: Square,
)
    requires
        s.valid(),
        t.valid(),
        is_direction(dr, df),
        1 <= k,
        see_through(g, s, dr, df, color, diag, k),
        on_grid(along(s.rank as int, dr, k), along(s.file as int, df, k)),
        !transparent_along(g, s, dr, df, color, diag, k),
    ensures
        ray_gives(g, s, dr, df, color, diag, smart, w, t) == walked(g, s, dr, df, smart, w, k + 1, t)
            + (if relayed(g, s, dr, df, color, diag, k) && t.rank == along(s.rank as int, dr, k + 1)
            && t.file == along(s.file as int, df, k + 1) {
            ray_strength(g, s, dr, df, smart, w, k)
        } else {
            0
        }),
{
    reveal(walked);
    reveal(ray_gives);
    reveal(see_through);
}

/// Adds `diff` to the influence on one square.
fn add_at(infs: &mut [[i32; 8]; 8], r: i8, f: i8, diff: i32)
    requires
        0 <= r < 8,
        0 <= f < 8,
        -1024 <= diff <= 1024,
        -2000000000 <= old(infs)[r as int][f as int] <= 2000000000,
    ensures
        forall|t: Square|
            t.valid() ==> #[trigger] at_inf(*final(infs), t) == at_inf(*old(infs), t) + (if t.rank == r
                && t.file == f {
                diff as int
            } else {
                0
            }),
{
    infs[r as usize][f as usize] = infs[r as usize][f as usize] + diff;
}

/// Adds to the grid what one ray from `sq` gives to each square.
pub fn spread_ray(
    infs: &mut [[i32; 8]; 8],
    board: &[[Piece; 8]; 8],
    diff: i32,
    sq: &Square,
    color: Color,
    dr: i8,
    df: i8,
    diag: bool,
    smart: bool,
)
    requires
        sq.valid(),
        is_direction(dr as int, df as int),
        -1024 <= diff <= 1024,
        within(*old(infs), 1000000000),
    ensures
        forall|t: Square|
            t.valid() ==> #[trigger] at_inf(*final(infs), t) == at_inf(*old(infs), t) + ray_gives(
                *board,
                *sq,
                dr as int,
                df as int,
                color,
                diag,
                smart,
                diff as int,
                t,
            ),
{
    let slider = if diag {
        PieceType::Bishop.of_color(color)
    } else {
        PieceType::Rook.of_color(color)
    };
    let queen = PieceType::Queen.of_color(color);
    let pawn = PieceType::Pawn.of_color(color);
    let ahead = if color == Color::White {
        dr > 0
    } else {
        dr < 0
    };
    let ghost w = diff as int;
    let ghost g = *board;
    let ghost s = *sq;
    let mut cur = diff;
    let mut r: i8 = sq.rank as i8 + dr;
    let mut f: i8 = sq.file as i8 + df;
    let ghost mut k: int = 1;
    proof {
        lemma_ray_strength_step(g, s, dr as int, df as int, smart, w, 1);
        lemma_see_through_step(g, s, dr as int, df as int, color, diag, 0);
        assert forall|t: Square| t.valid() implies #[trigger] at_inf(*infs, t) == at_inf(*old(infs), t)
            + walked(g, s, dr as int, df as int, smart, w, 1, t) by {
            lemma_walk_step(g, s, dr as int, df as int, smart, w, 1, t);
        }
    }
    while on_board([r, f])
        invariant
            s.valid(),
            is_direction(dr as int, df as int),
            g == *board,
            -1024 <= w <= 1024,
            1 <= k <= 8,
            r == along(s.rank as int, dr as int, k),
            f == along(s.file as int, df as int, k),
            slider == (if diag { PieceType::Bishop } else { PieceType::Rook }).colored(color),
            queen == PieceType::Queen.colored(color),
            pawn == PieceType::Pawn.colored(color),
            ahead == pawn_ahead(color, dr as int),
            see_through(g, s, dr as int, df as int, color, diag, k),
            cur == ray_strength(g, s, dr as int, df as int, smart, w, k),
            -1024 <= cur <= 1024,
            s == *sq,
            w == diff,
            within(*old(infs), 1000000000),
            forall|t: Square|
                t.valid() ==> #[trigger] at_inf(*infs, t) == at_inf(*old(infs), t) + walked(
                    g,
                    s,
                    dr as int,
                    df as int,
                    smart,
                    w,
                    k,
                    t,
                ),
        decreases 8 - k,
    {
        let ghost before = *infs;
        proof {
            let here = Square { rank: r as u8, file: f as u8 };
            lemma_walk_step(g, s, dr as int, df as int, smart, w, k, here);
            assert(at_inf(before, here) == at_inf(*old(infs), here) + walked(g, s, dr as int, df as int, smart, w, k, here));
            lemma_ray_strength_step(g, s, dr as int, df as int, smart, w, k);
        }
        add_at(infs, r, f, cur);
        proof {
            assert forall|t: Square| t.valid() implies #[trigger] at_inf(*infs, t) == at_inf(
                *old(infs),
                t,
            ) + walked(g, s, dr as int, df as int, smart, w, k + 1, t) by {
                lemma_walk_step(g, s, dr as int, df as int, smart, w, k, t);
            }
        }
        let piece = board[r as usize][f as usize];
        if !(piece == Piece::Empty || piece == slider || piece == queen) {
            let r2: i8 = r + dr;
            let f2: i8 = f + df;
            let relay = diag && on_board([r2, f2]) && piece == pawn && ahead;
            let ghost mid = *infs;
            if relay {
                proof {
                    let next = Square { rank: r2 as u8, file: f2 as u8 };
                    lemma_walk_step(g, s, dr as int, df as int, smart, w, k, next);
                    assert(at_inf(mid, next) == at_inf(*old(infs), next) + walked(g, s, dr as int, df as int, smart, w, k + 1, next));
                }
                add_at(infs, r2, f2, cur);
            }
            proof {
                assert forall|t: Square| t.valid() implies #[trigger] at_inf(*infs, t) == at_inf(
                    *old(infs),
                    t,
                ) + ray_gives(g, s, dr as int, df as int, color, diag, smart, w, t) by {
                    lemma_walk_stop(g, s, dr as int, df as int, color, diag, smart, w, k, t);
                }
            }
            return;
        }
        proof {
            lemma_see_through_step(g, s, dr as int, df as int, color, diag, k);
        }
        if smart && piece != Piece::Empty {
            let other = graded_of(piece);
            let size_cur = if cur >= 0 {
                cur
            } else {
                -cur
            };
            let size_other = if other >= 0 {
                other
            } else {
                -other
            };
            if size_other < size_cur {
                cur = other;
            }
        }
        r = r + dr;
        f = f + df;
        proof {
            k = k + 1;
        }
    }
    proof {
        assert forall|t: Square| t.valid() implies #[trigger] at_inf(*infs, t) == at_inf(*old(infs), t)
            + ray_gives(g, s, dr as int, df as int, color, diag, smart, w, t) by {
            lemma_walk_end(g, s, dr as int, df as int, color, diag, smart, w, k, t);
        }
    }
}

/// The four directions along ranks and files, in the order in which rays are sent out.
pub open spec fn straight_directions() -> Seq<(int, int)> {
    seq![(1, 0), (0, 1), (-1, 0), (0, -1)]
}

/// The four diagonal directions, in the order in which rays are sent out.
pub open spec fn diagonal_directions() -> Seq<(int, int)> {
    seq![(1, 1), (-1, 1), (1, -1), (-1, -1)]
}

/// The two squares that a pawn of the given colour attacks, as offsets.
pub open spec fn pawn_attacks(color: Color) -> Seq<(int, int)> {
    if color == Color::White {
        seq![(1, 1), (1, -1)]
    } else {
        seq![(-1, 1), (-1, -1)]
    }
}

/// What the rays in the first `n` of the given directions add to the square `t`.
pub open spec fn rays_give(
    g: Grid,
    s: Square,
    color: Color,
    diag: bool,
    smart: bool,
    w: int,
    dirs: Seq<(int, int)>,
    n: int,
    t: Square,
) -> int
    decreases n,
{
    if n <= 0 {
        0
    } else {
        rays_give(g, s, color, diag, smart, w, dirs, n - 1, t) + ray_gives(
            g,
            s,
            dirs[n - 1].0,
            dirs[n - 1].1,
            color,
            diag,
            smart,
            w,
            t,
        )
    }
}

/// The influence `w` if `t` lies at the given offset from `s`, else nothing.
pub open spec fn step_gives(s: Square, dr: int, df: int, w: int, t: Square) -> int {
    if t.rank == s.rank + dr && t.file == s.file + df {
        w
    } else {
        0
    }
}

/// What steps by the first `n` of the given offsets add to the square `t`.
pub open spec fn steps_give(s: Square, offsets: Seq<(int, int)>, n: int, w: int, t: Square) -> int
    decreases n,
{
    if n <= 0 {
        0
    } else {
        steps_give(s, offsets, n - 1, w, t) + step_gives(s, offsets[n - 1].0, offsets[n - 1].1, w, t)
    }
}

/// What the piece on `s` adds to the square `t` where it carries the influence `w`: a
/// king, knight or pawn bears on the squares it attacks, a rook, bishop or queen on the
/// squares its rays reach.
pub open spec fn piece_gives(g: Grid, s: Square, t: Square, smart: bool, w: int) -> int {
    let p = at(g, s);
    let c = p.color_of();
    match p.type_of() {
        PieceType::Empty => 0,
        PieceType::King => steps_give(s, king_steps(), 8, w, t),
        PieceType::Knight => steps_give(s, knight_jumps(), 8, w, t),
        PieceType::Pawn => steps_give(s, pawn_attacks(c), 2, w, t),
        PieceType::Rook => rays_give(g, s, c, false, smart, w, straight_directions(), 4, t),
        PieceType::Bishop => rays_give(g, s, c, true, smart, w, diagonal_directions(), 4, t),
        PieceType::Queen => rays_give(g, s, c, false, smart, w, straight_directions(), 4, t)
            + rays_give(g, s, c, true, smart, w, diagonal_directions(), 4, t),
    }
}

/// What rays add to a square is at most the influence they set out with, once for each
/// ray.
pub proof fn lemma_rays_give_bounds(
    g: Grid,
    s: Square,
    color: Color,
    diag: bool,
    smart: bool,
    w: int,
    dirs: Seq<(int, int)>,
    n: int,
    t: Square,
    size: int,
)
    requires
        0 <= n,
        -size <= w <= size,
    ensures
        -n * size <= rays_give(g, s, color, diag, smart, w, dirs, n, t) <= n * size,
    decreases n,
{
    if n > 0 {
        lemma_rays_give_bounds(g, s, color, diag, smart, w, dirs, n - 1, t, size);
        lemma_ray_gives_bounds(g, s, dirs[n - 1].0, dirs[n - 1].1, color, diag, smart, w, t);
        assert(n * size == (n - 1) * size + size) by (nonlinear_arith);
        assert(-n * size == -(n - 1) * size - size) by (nonlinear_arith);
    } else {
        assert(n * size == 0 && -n * size == 0) by (nonlinear_arith)
            requires
                n == 0,
        ;
    }
}

/// What steps add to a square is at most the influence they carry, once for each step.
pub proof fn lemma_steps_give_bounds(s: Square, offsets: Seq<(int, int)>, n: int, w: int, t: Square, size: int)
    requires
        0 <= n,
        -size <= w <= size,
    ensures
        -n * size <= steps_give(s, offsets, n, w, t) <= n * size,
    decreases n,
{
    if n > 0 {
        lemma_steps_give_bounds(s, offsets, n - 1, w, t, size);
        assert(n * size == (n - 1) * size + size) by (nonlinear_arith);
        assert(-n * size == -(n - 1) * size - size) by (nonlinear_arith);
    } else {
        assert(n * size == 0 && -n * size == 0) by (nonlinear_arith)
            requires
                n == 0,
        ;
    }
}

/// What a piece adds to a square is at most eight times the influence it carries.
pub proof fn lemma_piece_gives_bounds(g: Grid, s: Square, t: Square, smart: bool, w: int, size: int)
    requires
        -size <= w <= size,
    ensures
        -8 * size <= piece_gives(g, s, t, smart, w) <= 8 * size,
{
    let c = at(g, s).color_of();
    lemma_steps_give_bounds(s, king_steps(), 8, w, t, size);
    lemma_steps_give_bounds(s, knight_jumps(), 8, w, t, size);
    lemma_steps_give_bounds(s, pawn_attacks(c), 2, w, t, size);
    lemma_rays_give_bounds(g, s, c, false, smart, w, straight_directions(), 4, t, size);
    lemma_rays_give_bounds(g, s, c, true, smart, w, diagonal_directions(), 4, t, size);
}

/// A ray gives nothing to a square that does not lie on it, and never more than the
/// influence it set out with.
pub proof fn lemma_ray_gives_on_ray(
    g: Grid,
    s: Square,
    dr: int,
    df: int,
    color: Color,
    diag: bool,
    smart: bool,
    w: int,
    t: Square,
    size: int,
)
    requires
        -size <= w <= size,
    ensures
        !on_ray(s, dr, df, t) ==> ray_gives(g, s, dr, df, color, diag, smart, w, t) == 0,
        -size <= ray_gives(g, s, dr, df, color, diag, smart, w, t) <= size,
{
    reveal(ray_gives);
    lemma_ray_gives_bounds(g, s, dr, df, color, diag, smart, w, t);
}

/// The rays of a rook and those of a bishop reach a square along one direction at most,
/// so together they give a square no more than the influence they set out with.
pub proof fn lemma_rays_give_once(g: Grid, s: Square, color: Color, smart: bool, w: int, t: Square, size: int)
    requires
        -size <= w <= size,
    ensures
        -size <= rays_give(g, s, color, false, smart, w, straight_directions(), 4, t) + rays_give(
            g,
            s,
            color,
            true,
            smart,
            w,
            diagonal_directions(),
            4,
            t,
        ) <= size,
        -size <= rays_give(g, s, color, false, smart, w, straight_directions(), 4, t) <= size,
        -size <= rays_give(g, s, color, true, smart, w, diagonal_directions(), 4, t) <= size,
{
    reveal_with_fuel(rays_give, 5);
    lemma_ray_gives_on_ray(g, s, 1, 0, color, false, smart, w, t, size);
    lemma_ray_gives_on_ray(g, s, 0, 1, color, false, smart, w, t, size);
    lemma_ray_gives_on_ray(g, s, -1, 0, color, false, smart, w, t, size);
    lemma_ray_gives_on_ray(g, s, 0, -1, color, false, smart, w, t, size);
    lemma_ray_gives_on_ray(g, s, 1, 1, color, true, smart, w, t, size);
    lemma_ray_gives_on_ray(g, s, -1, 1, color, true, smart, w, t, size);
    lemma_ray_gives_on_ray(g, s, 1, -1, color, true, smart, w, t, size);
    lemma_ray_gives_on_ray(g, s, -1, -1, color, true, smart, w, t, size);
}

/// The steps of a king, of a knight and of a pawn lead to a square by one offset at
/// most, so they give a square no more than the influence they carry.
pub proof fn lemma_steps_give_once(s: Square, color: Color, w: int, t: Square, size: int)
    requires
        -size <= w <= size,
    ensures
        -size <= steps_give(s, king_steps(), 8, w, t) <= size,
        -size <= steps_give(s, knight_jumps(), 8, w, t) <= size,
        -size <= steps_give(s, pawn_attacks(color), 2, w, t) <= size,
{
    reveal_with_fuel(steps_give, 9);
}

/// What a piece adds to a square is never more than the influence it carries.
pub proof fn lemma_piece_gives_once(g: Grid, s: Square, t: Square, smart: bool, w: int, size: int)
    requires
        -size <= w <= size,
    ensures
        -size <= piece_gives(g, s, t, smart, w) <= size,
{
    let c = at(g, s).color_of();
    lemma_rays_give_once(g, s, c, smart, w, t, size);
    lemma_steps_give_once(s, c, w, t, size);
}

/// Adds to the grid what rays from `sq` in the given directions give to each square.
pub fn spread_rays(
    infs: &mut [[i32; 8]; 8],
    board: &[[Piece; 8]; 8],
    diff: i32,
    sq: &Square,
    color: Color,
    dirs: &[[i8; 2]; 4],
    diag: bool,
    smart: bool,
)
    requires
        sq.valid(),
        -1024 <= diff <= 1024,
        within(*old(infs), 900000000),
        forall|i: int| 0 <= i < 4 ==> is_direction(#[trigger] dirs[i][0] as int, dirs[i][1] as int),
    ensures
        forall|t: Square|
            t.valid() ==> #[trigger] at_inf(*final(infs), t) == at_inf(*old(infs), t) + rays_give(
                *board,
                *sq,
                color,
                diag,
                smart,
                diff as int,
                offsets_of(dirs@),
                4,
                t,
            ),
{
    let ghost g = *board;
    let ghost s = *sq;
    let ghost list = offsets_of(dirs@);
    let mut i: usize = 0;
    while i < 4
        invariant
            i <= 4,
            sq.valid(),
            g == *board,
            s == *sq,
            list == offsets_of(dirs@),
            -1024 <= diff <= 1024,
            within(*old(infs), 900000000),
            forall|j: int| 0 <= j < 4 ==> is_direction(#[trigger] dirs[j][0] as int, dirs[j][1] as int),
            forall|t: Square|
                t.valid() ==> #[trigger] at_inf(*infs, t) == at_inf(*old(infs), t) + rays_give(
                    g,
                    s,
                    color,
                    diag,
                    smart,
                    diff as int,
                    list,
                    i as int,
                    t,
                ),
        decreases 4 - i,
    {
        let ghost before = *infs;
        proof {
            assert forall|r: int, f: int| 0 <= r < 8 && 0 <= f < 8 implies -1000000000
                <= #[trigger] before[r][f] <= 1000000000 by {
                let t = Square { rank: r as u8, file: f as u8 };
                assert(at_inf(before, t) == before[r][f]);
                lemma_rays_give_bounds(g, s, color, diag, smart, diff as int, list, i as int, t, 1024);
            }
        }
        spread_ray(infs, board, diff, sq, color, dirs[i][0], dirs[i][1], diag, smart);
        proof {
            assert forall|t: Square| t.valid() implies #[trigger] at_inf(*infs, t) == at_inf(
                *old(infs),
                t,
            ) + rays_give(g, s, color, diag, smart, diff as int, list, i + 1, t) by {
                assert(at_inf(before, t) == at_inf(*old(infs), t) + rays_give(
                    g,
                    s,
                    color,
                    diag,
                    smart,
                    diff as int,
                    list,
                    i as int,
                    t,
                ));
            }
        }
        i += 1;
    }
}

/// Adds the influence `diff` to each square of the board that lies at one of the offsets
/// from `sq`.
pub fn populate_sing_offsets(infs: &mut [[i32; 8]; 8], diff: i32, offsets: &[[i8; 2]], sq: &Square)
    requires
        sq.valid(),
        -1024 <= diff <= 1024,
        offsets@.len() <= 1000,
        within(*old(infs), 900000000),
        forall|i: int|
            0 <= i < offsets@.len() ==> -100 <= (#[trigger] offsets@[i])[0] <= 100 && -100
                <= offsets@[i][1] <= 100,
    ensures
        forall|t: Square|
            t.valid() ==> #[trigger] at_inf(*final(infs), t) == at_inf(*old(infs), t) + steps_give(
                *sq,
                offsets_of(offsets@),
                offsets@.len() as int,
                diff as int,
                t,
            ),
{
    let ghost s = *sq;
    let ghost list = offsets_of(offsets@);
    let mut i: usize = 0;
    while i < offsets.len()
        invariant
            i <= offsets@.len() <= 1000,
            sq.valid(),
            s == *sq,
            list == offsets_of(offsets@),
            -1024 <= diff <= 1024,
            within(*old(infs), 900000000),
            forall|j: int|
                0 <= j < offsets@.len() ==> -100 <= (#[trigger] offsets@[j])[0] <= 100 && -100
                    <= offsets@[j][1] <= 100,
            forall|t: Square|
                t.valid() ==> #[trigger] at_inf(*infs, t) == at_inf(*old(infs), t) + steps_give(
                    s,
                    list,
                    i as int,
                    diff as int,
                    t,
                ),
        decreases offsets@.len() - i,
    {
        let offset = offsets[i];
        let r: i8 = sq.rank as i8 + offset[0];
        let f: i8 = sq.file as i8 + offset[1];
        let ghost before = *infs;
        if on_board([r, f]) {
            proof {
                let t = Square { rank: r as u8, file: f as u8 };
                assert(at_inf(before, t) == before[r as int][f as int]);
                lemma_steps_give_bounds(s, list, i as int, diff as int, t, 1024);
            }
            add_at(infs, r, f, diff);
        }
        proof {
            assert forall|t: Square| t.valid() implies #[trigger] at_inf(*infs, t) == at_inf(
                *old(infs),
                t,
            ) + steps_give(s, list, i + 1, diff as int, t) by {
                assert(at_inf(before, t) == at_inf(*old(infs), t) + steps_give(
                    s,
                    list,
                    i as int,
                    diff as int,
                    t,
                ));
            }
        }
        i += 1;
    }
}

/// Adds to the grid the influence `diff` of a piece of the given colour on `sq` along
/// ranks and files: on every square up to and with the first that holds anything but a
/// rook or queen of that colour.
pub fn populate_orth_offsets(infs: &mut [[i32; 8]; 8], board: &[[Piece; 8]; 8], diff: i32, sq: &Square, color: Color)
    requires
        sq.valid(),
        -1024 <= diff <= 1024,
        within(*old(infs), 900000000),
    ensures
        forall|t: Square|
            t.valid() ==> #[trigger] at_inf(*final(infs), t) == at_inf(*old(infs), t) + rays_give(
                *board,
                *sq,
                color,
                false,
                false,
                diff as int,
                straight_directions(),
                4,
                t,
            ),
{
    let dirs: [[i8; 2]; 4] = [[1, 0], [0, 1], [-1, 0], [0, -1]];
    assert(offsets_of(dirs@) =~= straight_directions());
    spread_rays(infs, board, diff, sq, color, &dirs, false, false);
}

/// Adds to the grid the influence `diff` of a piece of the given colour on `sq` along
/// the diagonals: on every square up to and with the first that holds anything but a
/// bishop or queen of that colour, and on the square behind that if a pawn of that
/// colour stands there and attacks along the ray.
pub fn populate_diag_offsets(infs: &mut [[i32; 8]; 8], board: &[[Piece; 8]; 8], diff: i32, sq: &Square, color: Color)
    requires
        sq.valid(),
        -1024 <= diff <= 1024,
        within(*old(infs), 900000000),
    ensures
        forall|t: Square|
            t.valid() ==> #[trigger] at_inf(*final(infs), t) == at_inf(*old(infs), t) + rays_give(
                *board,
                *sq,
                color,
                true,
                false,
                diff as int,
                diagonal_directions(),
                4,
                t,
            ),
{
    let dirs: [[i8; 2]; 4] = [[1, 1], [-1, 1], [1, -1], [-1, -1]];
    assert(offsets_of(dirs@) =~= diagonal_directions());
    spread_rays(infs, board, diff, sq, color, &dirs, true, false);
}

/// How the influence of a piece is weighed.
#[derive(Copy, Clone, Debug, PartialEq, Eq, Structural)]
pub enum Weighting {
    /// On a scale from 1 to 10: king 1, queen 2, rook 4, bishop 5, knight 6, pawn 10.
    Scaled,
    /// Every piece counts 1.
    Unit,
    /// King 1, queen 4, rook 16, bishop and knight 64, pawn 512; a ray that passes
    /// through a piece is left with the weaker of its own influence and that piece's.
    Graded,
}

/// The influence that a piece carries: positive for White, negative for Black.
pub open spec fn weight(p: Piece, by: Weighting) -> int {
    match by {
        Weighting::Graded => graded(p),
        Weighting::Unit => p.color_of().signed(1),
        Weighting::Scaled => p.color_of().signed(
            match p.type_of() {
                PieceType::Empty => 0int,
                PieceType::King => 1,
                PieceType::Queen => 2,
                PieceType::Rook => 4,
                PieceType::Bishop => 5,
                PieceType::Knight => 6,
                PieceType::Pawn => 10,
            },
        ),
    }
}

/// What the piece on a square adds to the influence on `t`; nothing if `side` names a
/// colour and the piece is not of it.
pub open spec fn influence_term(g: Grid, t: Square, by: Weighting, side: Color) -> spec_fn(int, int) -> int {
    |r: int, f: int|
        if side == Color::Neither || g[r][f].color_of() == side {
            piece_gives(g, Square { rank: r as u8, file: f as u8 }, t, by == Weighting::Graded, weight(g[r][f], by))
        } else {
            0
        }
}

/// The influence on the square `t`: the sum of what every piece adds to it, or every
/// piece of the colour `side` if it names one.
pub open spec fn influence_on(g: Grid, t: Square, by: Weighting, side: Color) -> int {
    grid_sum(influence_term(g, t, by, side))
}

/// The influence that a piece carries.
pub fn weight_of(p: Piece, by: Weighting) -> (w: i32)
    ensures
        w == weight(p, by),
        -512 <= w <= 512,
{
    match by {
        Weighting::Graded => graded_of(p),
        Weighting::Unit => match p.color() {
            Color::Neither => 0,
            Color::White => 1,
            Color::Black => -1,
        },
        Weighting::Scaled => {
            let size: i32 = match p.piece_type() {
                PieceType::Empty => 0,
                PieceType::King => 1,
                PieceType::Queen => 2,
                PieceType::Rook => 4,
                PieceType::Bishop => 5,
                PieceType::Knight => 6,
                PieceType::Pawn => 10,
            };
            match p.color() {
                Color::Neither => 0,
                Color::White => size,
                Color::Black => -size,
            }
        },
    }
}

/// Adds to the grid what the piece on `sq` gives to each square.
pub fn spread_piece(infs: &mut [[i32; 8]; 8], board: &[[Piece; 8]; 8], sq: &Square, w: i32, smart: bool)
    requires
        sq.valid(),
        -1024 <= w <= 1024,
        within(*old(infs), 800000000),
    ensures
        forall|t: Square|
            t.valid() ==> #[trigger] at_inf(*final(infs), t) == at_inf(*old(infs), t) + piece_gives(
                *board,
                *sq,
                t,
                smart,
                w as int,
            ),
{
    let piece = board[sq.rank as usize][sq.file as usize];
    let color = piece.color();
    let straight: [[i8; 2]; 4] = [[1, 0], [0, 1], [-1, 0], [0, -1]];
    let diagonal: [[i8; 2]; 4] = [[1, 1], [-1, 1], [1, -1], [-1, -1]];
    let king: [[i8; 2]; 8] = [[1, 1], [0, 1], [-1, 1], [-1, 0], [-1, -1], [0, -1], [1, -1], [1, 0]];
    let knight: [[i8; 2]; 8] = [
        [2, 1],
        [1, 2],
        [-2, 1],
        [1, -2],
        [2, -1],
        [-1, 2],
        [-2, -1],
        [-1, -2],
    ];
    let pawn: [[i8; 2]; 2] = if color == Color::White {
        [[1, 1], [1, -1]]
    } else {
        [[-1, 1], [-1, -1]]
    };
    proof {
        assert(offsets_of(straight@) =~= straight_directions());
        assert(offsets_of(diagonal@) =~= diagonal_directions());
        assert(offsets_of(king@) =~= king_steps());
        assert(offsets_of(knight@) =~= knight_jumps());
        assert(offsets_of(pawn@) =~= pawn_attacks(color));
    }
    match piece.piece_type() {
        PieceType::Empty => {},
        PieceType::King => {
            populate_sing_offsets(infs, w, king.as_slice(), sq);
        },
        PieceType::Knight => {
            populate_sing_offsets(infs, w, knight.as_slice(), sq);
        },
        PieceType::Pawn => {
            populate_sing_offsets(infs, w, pawn.as_slice(), sq);
        },
        PieceType::Rook => {
            spread_rays(infs, board, w, sq, color, &straight, false, smart);
        },
        PieceType::Bishop => {
            spread_rays(infs, board, w, sq, color, &diagonal, true, smart);
        },
        PieceType::Queen => {
            spread_rays(infs, board, w, sq, color, &straight, false, smart);
            let ghost mid = *infs;
            proof {
                assert forall|r: int, f: int| 0 <= r < 8 && 0 <= f < 8 implies -900000000
                    <= #[trigger] mid[r][f] <= 900000000 by {
                    let t = Square { rank: r as u8, file: f as u8 };
                    assert(at_inf(mid, t) == mid[r][f]);
                    lemma_rays_give_bounds(
                        *board,
                        *sq,
                        color,
                        false,
                        smart,
                        w as int,
                        straight_directions(),
                        4,
                        t,
                        1024,
                    );
                }
            }
            spread_rays(infs, board, w, sq, color, &diagonal, true, smart);
            proof {
                assert forall|t: Square| t.valid() implies #[trigger] at_inf(*infs, t) == at_inf(
                    *old(infs),
                    t,
                ) + piece_gives(*board, *sq, t, smart, w as int) by {
                    assert(at_inf(mid, t) == at_inf(*old(infs), t) + rays_give(
                        *board,
                        *sq,
                        color,
                        false,
                        smart,
                        w as int,
                        straight_directions(),
                        4,
                        t,
                    ));
                }
            }
        },
    }
}

/// The influence on every square: the sum of what each piece adds to it, or each piece
/// of the colour `side` if it names one.
pub fn influence_of_side(board: &[[Piece; 8]; 8], by: Weighting, side: Color) -> (infs: [[i32; 8]; 8])
    ensures
        forall|t: Square| t.valid() ==> #[trigger] at_inf(infs, t) == influence_on(*board, t, by, side),
        within(infs, 262144),
{
    let mut infs: [[i32; 8]; 8] = [[0i32;8];8];
    let smart = by == Weighting::Graded;
    let ghost g = *board;
    let mut rank: usize = 0;
    while rank < 8
        invariant
            rank <= 8,
            g == *board,
            smart == (by == Weighting::Graded),
            within(infs, 32768 * rank),
            forall|t: Square|
                t.valid() ==> #[trigger] at_inf(infs, t) == rows_sum(
                    influence_term(g, t, by, side),
                    rank as int,
                ),
        decreases 8 - rank,
    {
        let mut file: usize = 0;
        while file < 8
            invariant
                rank < 8,
                file <= 8,
                g == *board,
                smart == (by == Weighting::Graded),
                within(infs, 32768 * rank + 4096 * file),
                forall|t: Square|
                    t.valid() ==> #[trigger] at_inf(infs, t) == rows_sum(
                        influence_term(g, t, by, side),
                        rank as int,
                    ) + cells_sum(influence_term(g, t, by, side), rank as int, file as int),
            decreases 8 - file,
        {
            let piece = board[rank][file];
            let sq = Square { rank: rank as u8, file: file as u8 };
            let counts = match side {
                Color::Neither => true,
                _ => piece.color() == side,
            };
            if counts {
                let w = weight_of(piece, by);
                spread_piece(&mut infs, board, &sq, w, smart);
            }
            proof {
                assert forall|r: int, f: int| 0 <= r < 8 && 0 <= f < 8 implies -(32768 * rank + 4096
                    * (file + 1)) <= #[trigger] infs[r][f] <= 32768 * rank + 4096 * (file + 1) by {
                    let t = Square { rank: r as u8, file: f as u8 };
                    assert(at_inf(infs, t) == infs[r][f]);
                    lemma_piece_gives_bounds(g, sq, t, smart, weight(piece, by), 512);
                }
            }
            file += 1;
        }
        rank += 1;
    }
    infs
}

/// The grid of influences as small numbers, one for each square.
pub type SmallInfluences = [[i8; 8]; 8];

/// The influence on every square, weighed as given and counted for both sides, fits the
/// small numbers of a grid.
pub open spec fn influences_fit(g: Grid, by: Weighting) -> bool {
    forall|t: Square| t.valid() ==> -128 <= #[trigger] influence_on(g, t, by, Color::Neither) <= 127
}

/// The grid as small numbers.
pub fn narrowed(infs: &[[i32; 8]; 8]) -> (small: [[i8; 8]; 8])
    requires
        forall|r: int, f: int| 0 <= r < 8 && 0 <= f < 8 ==> -128 <= #[trigger] infs[r][f] <= 127,
    ensures
        forall|r: int, f: int| 0 <= r < 8 && 0 <= f < 8 ==> #[trigger] small[r][f] == infs[r][f],
{
    let mut small: [[i8; 8]; 8] = [[0i8;8];8];
    let mut r: usize = 0;
    while r < 8
        invariant
            r <= 8,
            forall|i: int, j: int| 0 <= i < 8 && 0 <= j < 8 ==> -128 <= #[trigger] infs[i][j] <= 127,
            forall|i: int, j: int| 0 <= i < r && 0 <= j < 8 ==> #[trigger] small[i][j] == infs[i][j],
        decreases 8 - r,
    {
        let mut f: usize = 0;
        while f < 8
            invariant
                r < 8,
                f <= 8,
                forall|i: int, j: int|
                    0 <= i < 8 && 0 <= j < 8 ==> -128 <= #[trigger] infs[i][j] <= 127,
                forall|i: int, j: int|
                    0 <= i < r && 0 <= j < 8 ==> #[trigger] small[i][j] == infs[i][j],
                forall|j: int| 0 <= j < f ==> #[trigger] small[r as int][j] == infs[r as int][j],
            decreases 8 - f,
        {
            let wide: i32 = infs[r][f];
            assert(-128 <= infs[r as int][f as int] <= 127);
            small[r][f] = wide as i8;
            f += 1;
        }
        r += 1;
    }
    small
}

/// The influence on every square as a small number.
pub fn small_influence(board: &[[Piece; 8]; 8], by: Weighting) -> (infs: [[i8; 8]; 8])
    requires
        influences_fit(*board, by),
    ensures
        forall|r: int, f: int|
            0 <= r < 8 && 0 <= f < 8 ==> #[trigger] infs[r][f] == influence_on(
                *board,
                Square { rank: r as u8, file: f as u8 },
                by,
                Color::Neither,
            ),
{
    let wide = influence_of_side(board, by, Color::Neither);
    proof {
        assert forall|r: int, f: int| 0 <= r < 8 && 0 <= f < 8 implies #[trigger] wide[r][f]
            == influence_on(*board, Square { rank: r as u8, file: f as u8 }, by, Color::Neither) by {
            let t = Square { rank: r as u8, file: f as u8 };
            assert(at_inf(wide, t) == wide[r][f]);
        }
    }
    narrowed(&wide)
}

/// The influence on every square, each piece weighed on the scale from 1 to 10: positive
/// where White bears on a square more than Black, negative where Black does.
pub fn influence_grid(board: &[[Piece; 8]; 8]) -> (infs: [[i8; 8]; 8])
    requires
        influences_fit(*board, Weighting::Scaled),
    ensures
        forall|r: int, f: int|
            0 <= r < 8 && 0 <= f < 8 ==> #[trigger] infs[r][f] == influence_on(
                *board,
                Square { rank: r as u8, file: f as u8 },
                Weighting::Scaled,
                Color::Neither,
            ),
{
    small_influence(board, Weighting::Scaled)
}

/// The influence on every square, each piece weighed on the scale from 1 to 10, or
/// nothing where the influence on some square does not fit a small number.
pub fn try_influence_grid(board: &[[Piece; 8]; 8]) -> (infs: Option<[[i8; 8]; 8]>)
    ensures
        infs is Some == influences_fit(*board, Weighting::Scaled),
        infs is Some ==> forall|r: int, f: int|
            0 <= r < 8 && 0 <= f < 8 ==> #[trigger] infs.unwrap()[r][f] == influence_on(
                *board,
                Square { rank: r as u8, file: f as u8 },
                Weighting::Scaled,
                Color::Neither,
            ),
{
    let wide = influence_of_side(board, Weighting::Scaled, Color::Neither);
    let mut r: usize = 0;
    while r < 8
        invariant
            r <= 8,
            forall|t: Square|
                t.valid() ==> #[trigger] at_inf(wide, t) == influence_on(
                    *board,
                    t,
                    Weighting::Scaled,
                    Color::Neither,
                ),
            forall|i: int, j: int| 0 <= i < r && 0 <= j < 8 ==> -128 <= #[trigger] wide[i][j] <= 127,
        decreases 8 - r,
    {
        let mut f: usize = 0;
        while f < 8
            invariant
                r < 8,
                f <= 8,
                forall|t: Square|
                    t.valid() ==> #[trigger] at_inf(wide, t) == influence_on(
                        *board,
                        t,
                        Weighting::Scaled,
                        Color::Neither,
                    ),
                forall|i: int, j: int|
                    0 <= i < r && 0 <= j < 8 ==> -128 <= #[trigger] wide[i][j] <= 127,
                forall|j: int| 0 <= j < f ==> -128 <= #[trigger] wide[r as int][j] <= 127,
            decreases 8 - f,
        {
            if wide[r][f] < -128 || wide[r][f] > 127 {
                proof {
                    let t = Square { rank: r as u8, file: f as u8 };
                    assert(t.valid());
                    assert(at_inf(wide, t) == wide[r as int][f as int]);
                }
                return None;
            }
            f += 1;
        }
        r += 1;
    }
    proof {
        assert forall|t: Square| t.valid() implies -128 <= #[trigger] influence_on(
            *board,
            t,
            Weighting::Scaled,
            Color::Neither,
        ) <= 127 by {
            assert(at_inf(wide, t) == wide[t.rank as int][t.file as int]);
        }
    }
    Some(influence_grid(board))
}

/// How much each square counts in the influence score, seen from White's side.
pub const W_INF_TARGETS: [[i32; 8]; 8] = [
    [1, 1, 1, 1, 1, 1, 1, 1],
    [2, 3, 3, 4, 4, 3, 3, 2],
    [1, 2, 2, 3, 3, 2, 2, 1],
    [1, 1, 4, 6, 6, 4, 1, 1],
    [1, 1, 1, 3, 3, 1, 1, 1],
    [1, 1, 1, 1, 1, 1, 1, 1],
    [2, 2, 2, 1, 1, 2, 2, 2],
    [1, 1, 1, 1, 1, 1, 1, 1],
];

/// What the influence `inf` on a square means to the piece of colour `color` that stands
/// there: twice the influence where it is friendly, four times where it is hostile.
pub open spec fn pressure(color: Color, inf: int) -> int {
    let size = if inf >= 0 {
        inf
    } else {
        -inf
    };
    match color {
        Color::Neither => 0,
        Color::White => 3 * inf - size,
        Color::Black => 3 * inf + size,
    }
}

/// What the influence on an occupied square adds to the influence score: the pressure
/// on the piece, times what the square counts for the piece's side.
pub open spec fn pressure_term(g: Grid, infs: SmallInfluences) -> spec_fn(int, int) -> int {
    |r: int, f: int|
        {
            let c = g[r][f].color_of();
            if c == Color::Neither {
                0
            } else {
                pressure(c, infs[r][f] as int) * W_INF_TARGETS[g[r][f].own_rank(r)][f]
            }
        }
}

/// The influence score of a position under the given influences.
pub open spec fn influence_score(g: Grid, infs: SmallInfluences) -> int {
    grid_sum(pressure_term(g, infs))
}

/// The influence score: the sum, over all occupied squares, of the pressure on the piece
/// times what its square counts.
pub fn influence_coeff(board: &[[Piece; 8]; 8], infs: &[[i8; 8]; 8]) -> (v: i32)
    ensures
        v == influence_score(*board, *infs),
{
    let ghost t = pressure_term(*board, *infs);
    let mut sum: i32 = 0;
    let mut r: usize = 0;
    while r < 8
        invariant
            r <= 8,
            t == pressure_term(*board, *infs),
            sum == rows_sum(t, r as int),
            -24576 * r <= sum <= 24576 * r,
        decreases 8 - r,
    {
        let mut f: usize = 0;
        while f < 8
            invariant
                r < 8,
                f <= 8,
                t == pressure_term(*board, *infs),
                sum == rows_sum(t, r as int) + cells_sum(t, r as int, f as int),
                -24576 * r - 3072 * f <= sum <= 24576 * r + 3072 * f,
            decreases 8 - f,
        {
            let inf: i32 = infs[r][f] as i32;
            let size: i32 = if inf >= 0 {
                inf
            } else {
                -inf
            };
            let color = board[r][f].color();
            if color != Color::Neither {
                let addition: i32 = if color == Color::White {
                    3 * inf - size
                } else {
                    3 * inf + size
                };
                let own: usize = if color == Color::White {
                    r
                } else {
                    7 - r
                };
                let target: i32 = W_INF_TARGETS[own][f];
                assert(-3072 <= addition * target <= 3072) by (nonlinear_arith)
                    requires
                        -512 <= addition <= 512,
                        1 <= target <= 6,
                ;
                sum += addition * target;
            }
            f += 1;
        }
        r += 1;
    }
    sum
}

/// The influence on a square.
pub open spec fn at_inf(infs: Influences, s: Square) -> int {
    infs[s.rank as int][s.file as int] as int
}

} // verus!
