//! Graded influence, kept apart for the two sides: which pieces bear on a square, the
//! cheapest counted highest.

use vstd::prelude::*;
use crate::attack::along;
use crate::board::{at, Grid, Square};
use crate::heuristics::influence::{
    at_inf, diagonal_directions, graded, graded_of, influence_of_side, influence_on, influence_term,
    pawn_attacks, populate_sing_offsets, ray_gives, ray_strength, rays_give, see_through,
    spread_rays, steps_give, straight_directions, transparent_along, weight, within, Influences,
    Weighting,
};
use crate::heuristics::movability::{king_steps, knight_jumps, offsets_of};
use crate::piece::{Color, Piece};
use crate::sums::{
    cells_max, cells_sum, grid_max, grid_sum, lemma_rows_sum_bounds, rows_max, rows_sum,
};

verus! {

impl Piece {
    /// The graded influence of the piece: the cheaper the piece, the higher; positive
    /// for White, negative for Black.
    pub fn sminf(&self) -> (v: i32)
        ensures
            v == graded(*self),
            -512 <= v <= 512,
    {
        graded_of(*self)
    }
}

/// Adds to the grid the graded influence `diff` of a piece of the given colour on `sq`
/// along ranks and files.
pub fn populate_orth_offsets_sm(infs: &mut [[i32; 8]; 8], board: &[[Piece; 8]; 8], diff: i32, sq: &Square, color: Color)
    requires
        sq.valid(),
        -1024 <= diff <= 1024,
        within(*old(infs), 900000000),
    ensures
        forall|t: Square|
            t.valid() ==> #[trigger] at_inf(*final(infs), t) == at_inf(*old(infs), t) + rays_give(
                *board,
                *sq,
                color,
                false,
                true,
                diff as int,
                straight_directions(),
                4,
                t,
            ),
{
    let dirs: [[i8; 2]; 4] = [[1, 0], [0, 1], [-1, 0], [0, -1]];
    assert(offsets_of(dirs@) =~= straight_directions());
    spread_rays(infs, board, diff, sq, color, &dirs, false, true);
}

/// Adds to the grid the graded influence `diff` of a piece of the given colour on `sq`
/// along the diagonals.
pub fn populate_diag_offsets_sm(infs: &mut [[i32; 8]; 8], board: &[[Piece; 8]; 8], diff: i32, sq: &Square, color: Color)
    requires
        sq.valid(),
        -1024 <= diff <= 1024,
        within(*old(infs), 900000000),
    ensures
        forall|t: Square|
            t.valid() ==> #[trigger] at_inf(*final(infs), t) == at_inf(*old(infs), t) + rays_give(
                *board,
                *sq,
                color,
                true,
                true,
                diff as int,
                diagonal_directions(),
                4,
                t,
            ),
{
    let dirs: [[i8; 2]; 4] = [[1, 1], [-1, 1], [1, -1], [-1, -1]];
    assert(offsets_of(dirs@) =~= diagonal_directions());
    spread_rays(infs, board, diff, sq, color, &dirs, true, true);
}

/// Adds the graded influence `diff` to each square of the board that lies at one of the
/// offsets from `sq`.
pub fn populate_sing_offsets_sm(infs: &mut [[i32; 8]; 8], diff: i32, offsets: &[[i8; 2]], sq: &Square)
    requires
        sq.valid(),
        -1024 <= diff <= 1024,
        offsets@.len() <= 1000,
        within(*old(infs), 900000000),
        forall|i: int|
            0 <= i < offsets@.len() ==> -100 <= (#[trigger] offsets@[i])[0] <= 100 && -100
                <= offsets@[i][1] <= 100,
    ensures
        forall|t: Square|
            t.valid() ==> #[trigger] at_inf(*final(infs), t) == at_inf(*old(infs), t) + steps_give(
                *sq,
                offsets_of(offsets@),
                offsets@.len() as int,
                diff as int,
                t,
            ),
{
    populate_sing_offsets(infs, diff, offsets, sq);
}

/// A ray that sets out with an influence of a colour's sign and passes through that
/// colour's pieces only arrives with an influence of the same sign.
pub proof fn lemma_ray_strength_sign(g: Grid, s: Square, dr: int, df: int, color: Color, diag: bool, smart: bool, w: int, k: int)
    requires
        color.signed(w) > 0,
        see_through(g, s, dr, df, color, diag, k),
    ensures
        color.signed(ray_strength(g, s, dr, df, smart, w, k)) > 0,
    decreases k,
{
    reveal(ray_strength);
    reveal(see_through);
    if smart && k > 1 {
        lemma_ray_strength_sign(g, s, dr, df, color, diag, smart, w, k - 1);
        assert(transparent_along(g, s, dr, df, color, diag, k - 1));
    }
}

/// What a ray of a colour's sign gives to a square has that sign or is nothing.
pub proof fn lemma_ray_gives_sign(g: Grid, s: Square, dr: int, df: int, color: Color, diag: bool, smart: bool, w: int, t: Square)
    requires
        color.signed(w) > 0,
    ensures
        color.signed(ray_gives(g, s, dr, df, color, diag, smart, w, t)) >= 0,
{
    reveal(ray_gives);
    let k = crate::heuristics::influence::king_distance(s, t);
    if see_through(g, s, dr, df, color, diag, k) {
        lemma_ray_strength_sign(g, s, dr, df, color, diag, smart, w, k);
    }
    if see_through(g, s, dr, df, color, diag, k - 1) {
        lemma_ray_strength_sign(g, s, dr, df, color, diag, smart, w, k - 1);
    }
}

/// What rays of a colour's sign give to a square has that sign or is nothing.
pub proof fn lemma_rays_give_sign(g: Grid, s: Square, color: Color, diag: bool, smart: bool, w: int, dirs: Seq<(int, int)>, n: int, t: Square)
    requires
        color.signed(w) > 0,
    ensures
        color.signed(rays_give(g, s, color, diag, smart, w, dirs, n, t)) >= 0,
    decreases n,
{
    if n > 0 {
        lemma_rays_give_sign(g, s, color, diag, smart, w, dirs, n - 1, t);
        lemma_ray_gives_sign(g, s, dirs[n - 1].0, dirs[n - 1].1, color, diag, smart, w, t);
    }
}

/// What steps of a colour's sign give to a square has that sign or is nothing.
pub proof fn lemma_steps_give_sign(s: Square, color: Color, offsets: Seq<(int, int)>, n: int, w: int, t: Square)
    requires
        color.signed(w) > 0,
    ensures
        color.signed(steps_give(s, offsets, n, w, t)) >= 0,
    decreases n,
{
    if n > 0 {
        lemma_steps_give_sign(s, color, offsets, n - 1, w, t);
    }
}

/// The graded influence of one side on a square has that side's sign or is nothing, and
/// is at most 262144 in size.
pub proof fn lemma_side_influence_sign(g: Grid, t: Square, side: Color)
    requires
        side != Color::Neither,
    ensures
        0 <= side.signed(influence_on(g, t, Weighting::Graded, side)) <= 262144,
{
    let term = influence_term(g, t, Weighting::Graded, side);
    assert forall|i: int, j: int| 0 <= i < 8 && 0 <= j < 8 implies 0 <= side.signed(#[trigger] term(i, j))
        <= 4096 by {
        let s = Square { rank: i as u8, file: j as u8 };
        let p = g[i][j];
        if p.color_of() == side {
            let w = weight(p, Weighting::Graded);
            lemma_steps_give_sign(s, side, king_steps(), 8, w, t);
            lemma_steps_give_sign(s, side, knight_jumps(), 8, w, t);
            lemma_steps_give_sign(s, side, pawn_attacks(side), 2, w, t);
            lemma_rays_give_sign(g, s, side, false, true, w, straight_directions(), 4, t);
            lemma_rays_give_sign(g, s, side, true, true, w, diagonal_directions(), 4, t);
            crate::heuristics::influence::lemma_piece_gives_bounds(g, s, t, true, w, 512);
        }
    }
    if side == Color::White {
        lemma_rows_sum_bounds(term, 8, 0, 4096);
    } else {
        lemma_rows_sum_bounds(term, 8, -4096, 0);
    }
}

/// No influence on the grid is negative.
pub open spec fn white_sided(infs: Influences) -> bool {
    forall|r: int, f: int| 0 <= r < 8 && 0 <= f < 8 ==> 0 <= #[trigger] infs[r][f] <= 1000000000
}

/// No influence on the grid is positive.
pub open spec fn black_sided(infs: Influences) -> bool {
    forall|r: int, f: int| 0 <= r < 8 && 0 <= f < 8 ==> -1000000000 <= #[trigger] infs[r][f] <= 0
}

/// The graded influence of White's pieces and of Black's on every square, each in a grid
/// of its own.
pub fn smart_influence_grid_double(board: &[[Piece; 8]; 8]) -> (grids: ([[i32; 8]; 8], [[i32; 8]; 8]))
    ensures
        forall|t: Square|
            t.valid() ==> #[trigger] at_inf(grids.0, t) == influence_on(
                *board,
                t,
                Weighting::Graded,
                Color::White,
            ),
        forall|t: Square|
            t.valid() ==> #[trigger] at_inf(grids.1, t) == influence_on(
                *board,
                t,
                Weighting::Graded,
                Color::Black,
            ),
        white_sided(grids.0),
        black_sided(grids.1),
        within(grids.0, 262144),
        within(grids.1, 262144),
{
    let winfs = influence_of_side(board, Weighting::Graded, Color::White);
    let binfs = influence_of_side(board, Weighting::Graded, Color::Black);
    proof {
        assert forall|r: int, f: int| 0 <= r < 8 && 0 <= f < 8 implies 0 <= #[trigger] winfs[r][f]
            <= 1000000000 by {
            let t = Square { rank: r as u8, file: f as u8 };
            assert(at_inf(winfs, t) == winfs[r][f]);
            lemma_side_influence_sign(*board, t, Color::White);
        }
        assert forall|r: int, f: int| 0 <= r < 8 && 0 <= f < 8 implies -1000000000
            <= #[trigger] binfs[r][f] <= 0 by {
            let t = Square { rank: r as u8, file: f as u8 };
            assert(at_inf(binfs, t) == binfs[r][f]);
            lemma_side_influence_sign(*board, t, Color::Black);
        }
    }
    (winfs, binfs)
}

/// The graded influence on every square, White's and Black's added up.
pub fn smart_influence_grid(board: &[[Piece; 8]; 8]) -> (res: [[i32; 8]; 8])
    ensures
        forall|t: Square|
            t.valid() ==> #[trigger] at_inf(res, t) == influence_on(
                *board,
                t,
                Weighting::Graded,
                Color::White,
            ) + influence_on(*board, t, Weighting::Graded, Color::Black),
{
    let (winfs, binfs) = smart_influence_grid_double(board);
    let mut res: [[i32; 8]; 8] = [[0i32;8];8];
    let mut r: usize = 0;
    while r < 8
        invariant
            r <= 8,
            within(winfs, 262144),
            within(binfs, 262144),
            forall|i: int, j: int|
                0 <= i < r && 0 <= j < 8 ==> #[trigger] res[i][j] == winfs[i][j] + binfs[i][j],
        decreases 8 - r,
    {
        let mut f: usize = 0;
        while f < 8
            invariant
                r < 8,
                f <= 8,
                within(winfs, 262144),
                within(binfs, 262144),
                forall|i: int, j: int|
                    0 <= i < r && 0 <= j < 8 ==> #[trigger] res[i][j] == winfs[i][j] + binfs[i][j],
                forall|j: int| 0 <= j < f ==> #[trigger] res[r as int][j] == winfs[r as int][j] + binfs[r as int][j],
            decreases 8 - f,
        {
            res[r][f] = winfs[r][f] + binfs[r][f];
            f += 1;
        }
        r += 1;
    }
    proof {
        assert forall|t: Square| t.valid() implies #[trigger] at_inf(res, t) == influence_on(
            *board,
            t,
            Weighting::Graded,
            Color::White,
        ) + influence_on(*board, t, Weighting::Graded, Color::Black) by {
            assert(res[t.rank as int][t.file as int] == winfs[t.rank as int][t.file as int]
                + binfs[t.rank as int][t.file as int]);
            assert(at_inf(winfs, t) == winfs[t.rank as int][t.file as int]);
            assert(at_inf(binfs, t) == binfs[t.rank as int][t.file as int]);
        }
    }
    res
}

/// The worth of the piece on a square if it is of the given colour and the influence on
/// its square is hostile, else 0.
pub open spec fn prey_term(g: Grid, sminfs: Influences, color: Color) -> spec_fn(int, int) -> int {
    |r: int, f: int|
        if g[r][f].color_of() == color && color != Color::Neither && color.signed(sminfs[r][f] as int)
            < 0 {
            g[r][f].value_on_rank(r)
        } else {
            0
        }
}

/// The worth of the pieces of a colour that stand under hostile influence.
pub open spec fn prey_of(g: Grid, sminfs: Influences, color: Color) -> int {
    grid_sum(prey_term(g, sminfs, color))
}

/// The worth of the dearest piece of a colour that stands under hostile influence, 0 if
/// there is none.
pub open spec fn dearest_prey_of(g: Grid, sminfs: Influences, color: Color) -> int {
    grid_max(prey_term(g, sminfs, color))
}

/// What stands to be won under the given influences: the worth of Black's pieces under
/// hostile influence less that of White's, the dearest such piece left out on White's
/// side if White is to move and on Black's side if not, for the side to move can save
/// one piece.
pub open spec fn prey_score(g: Grid, sminfs: Influences, to_move: Color) -> int {
    if to_move == Color::White {
        prey_of(g, sminfs, Color::Black) - (prey_of(g, sminfs, Color::White) - dearest_prey_of(
            g,
            sminfs,
            Color::White,
        ))
    } else {
        (prey_of(g, sminfs, Color::Black) - dearest_prey_of(g, sminfs, Color::Black)) - prey_of(
            g,
            sminfs,
            Color::White,
        )
    }
}

/// What stands to be won under the given influences, for White and against Black.
pub fn sminf_coeff(board: &[[Piece; 8]; 8], sminfs: &[[i32; 8]; 8], to_move: Color) -> (v: i32)
    ensures
        v == prey_score(*board, *sminfs, to_move),
{
    let ghost w = prey_term(*board, *sminfs, Color::White);
    let ghost b = prey_term(*board, *sminfs, Color::Black);
    let mut w_sum: i32 = 0;
    let mut b_sum: i32 = 0;
    let mut w_max: i32 = 0;
    let mut b_max: i32 = 0;
    let mut r: usize = 0;
    while r < 8
        invariant
            r <= 8,
            w == prey_term(*board, *sminfs, Color::White),
            b == prey_term(*board, *sminfs, Color::Black),
            w_sum == rows_sum(w, r as int),
            b_sum == rows_sum(b, r as int),
            w_max == rows_max(w, r as int),
            b_max == rows_max(b, r as int),
            0 <= w_max <= 202000,
            0 <= b_max <= 202000,
            0 <= w_sum <= 1616000 * r,
            0 <= b_sum <= 1616000 * r,
        decreases 8 - r,
    {
        let mut f: usize = 0;
        let mut w_row: i32 = 0;
        let mut b_row: i32 = 0;
        while f < 8
            invariant
                r < 8,
                f <= 8,
                w == prey_term(*board, *sminfs, Color::White),
                b == prey_term(*board, *sminfs, Color::Black),
                w_sum == rows_sum(w, r as int) + cells_sum(w, r as int, f as int),
                b_sum == rows_sum(b, r as int) + cells_sum(b, r as int, f as int),
                w_row == cells_max(w, r as int, f as int),
                b_row == cells_max(b, r as int, f as int),
                0 <= w_row <= 202000,
                0 <= b_row <= 202000,
                0 <= w_sum <= 1616000 * r + 202000 * f,
                0 <= b_sum <= 1616000 * r + 202000 * f,
            decreases 8 - f,
        {
            let piece = board[r][f];
            let worth = piece.material_eval(r as u8, f as u8);
            match piece.color() {
                Color::Neither => {},
                Color::White => {
                    if sminfs[r][f] < 0 {
                        w_sum += worth;
                        if worth > w_row {
                            w_row = worth;
                        }
                    }
                },
                Color::Black => {
                    if sminfs[r][f] > 0 {
                        b_sum += worth;
                        if worth > b_row {
                            b_row = worth;
                        }
                    }
                },
            }
            f += 1;
        }
        if w_row > w_max {
            w_max = w_row;
        }
        if b_row > b_max {
            b_max = b_row;
        }
        r += 1;
    }
    if to_move == Color::White {
        b_sum - (w_sum - w_max)
    } else {
        (b_sum - b_max) - w_sum
    }
}

} // verus!
