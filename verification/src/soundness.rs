//! Positions that can arise in a game, and that legal moves lead from one to the next.

use vstd::prelude::*;
use crate::attack::{
    attacked_by, empty_along, in_check, lemma_in_check_single_king, ray_attack, slider_at,
};
use crate::attackers::law_kings_are_not_captured;
use crate::board::{
    at, grid_after, is_double_step, sq, start_position, Grid, InitialState, Move, Square,
    START_GRID,
};
use crate::laws::law_grid_after_move;
use crate::legality::{forward, home_rank, legal};
use crate::piece::{Color, Piece, PieceType};

verus! {

/// The side has exactly one king, and it stands on `k`.
pub open spec fn has_one_king(g: Grid, color: Color, k: Square) -> bool {
    &&& k.valid()
    &&& forall|t: Square| #[trigger] t.valid() ==> (at(g, t) == PieceType::King.colored(color)) == (t == k)
}

/// The square on which a pawn of the given colour stands after its double step on the
/// given file.
pub open spec fn double_step_square(color: Color, file: int) -> Square {
    sq(home_rank(color) + 3 * forward(color), file)
}

/// The position can arise in a game: a side is to move, each side has exactly one king,
/// the side that is not to move is not in check, and if a file is open to a capture in
/// passing, a pawn of the side that is not to move stands on it where its double step
/// took it.
pub open spec fn sound(p: InitialState) -> bool {
    let waiting = p.active_color.opposite();
    &&& p.active_color != Color::Neither
    &&& exists|k: Square| #[trigger] has_one_king(p.state, Color::White, k)
    &&& exists|k: Square| #[trigger] has_one_king(p.state, Color::Black, k)
    &&& !in_check(p.state, waiting)
    &&& p.en_passant < 8 ==> at(p.state, double_step_square(waiting, p.en_passant as int))
        == PieceType::Pawn.colored(waiting)
}

/// A legal move of the side to move leads from a position that can arise in a game to
/// another such position: no king is taken or lost, the side that has moved is not in
/// check, and the file open to a capture in passing is that of the pawn just advanced.
pub proof fn law_legal_moves_keep_positions_sound(p: InitialState, m: Move)
    requires
        sound(p),
        m.valid(),
        legal(p, m, p.active_color),
    ensures
        sound(p.after(m)),
{
    let g = p.state;
    let mover = p.active_color;
    let waiting = mover.opposite();
    let after = grid_after(g, m);
    let own = if mover == Color::White {
        choose|k: Square| #[trigger] has_one_king(g, Color::White, k)
    } else {
        choose|k: Square| #[trigger] has_one_king(g, Color::Black, k)
    };
    let other = if mover == Color::White {
        choose|k: Square| #[trigger] has_one_king(g, Color::Black, k)
    } else {
        choose|k: Square| #[trigger] has_one_king(g, Color::White, k)
    };
    law_kings_are_not_captured(p, m, mover, other);
    let own_after = if m.from == own {
        m.to
    } else {
        own
    };
    assert forall|t: Square| #[trigger] t.valid() implies (at(after, t) == PieceType::King.colored(
        mover,
    )) == (t == own_after) by {
        law_grid_after_move(g, m, t);
    }
    assert forall|t: Square| #[trigger] t.valid() implies (at(after, t) == PieceType::King.colored(
        waiting,
    )) == (t == other) by {
        law_grid_after_move(g, m, t);
    }
    assert(has_one_king(after, mover, own_after));
    assert(has_one_king(after, waiting, other));
    if is_double_step(g, m) {
        law_grid_after_move(g, m, m.to);
    }
}

/// The position from which a game starts can arise in a game.
pub proof fn law_start_position_sound()
    ensures
        sound(start_position()),
{
    let g = START_GRID;
    let white = sq(0, 4);
    let black = sq(7, 4);
    assert forall|t: Square| #[trigger] t.valid() implies (at(g, t) == Piece::WKing) == (t == white) by {
        lemma_start_grid(t);
    }
    assert forall|t: Square| #[trigger] t.valid() implies (at(g, t) == Piece::BKing) == (t == black) by {
        lemma_start_grid(t);
    }
    assert(has_one_king(g, Color::White, white));
    assert(has_one_king(g, Color::Black, black));
    lemma_in_check_single_king(g, Color::Black, black);
    assert(!attacked_by(g, Color::White, black)) by {
        lemma_blocked_ray(g, black, 1, 0, Color::White, PieceType::Rook);
        lemma_blocked_ray(g, black, 0, 1, Color::White, PieceType::Rook);
        lemma_blocked_ray(g, black, -1, 0, Color::White, PieceType::Rook);
        lemma_blocked_ray(g, black, 0, -1, Color::White, PieceType::Rook);
        lemma_blocked_ray(g, black, 1, 1, Color::White, PieceType::Bishop);
        lemma_blocked_ray(g, black, -1, 1, Color::White, PieceType::Bishop);
        lemma_blocked_ray(g, black, 1, -1, Color::White, PieceType::Bishop);
        lemma_blocked_ray(g, black, -1, -1, Color::White, PieceType::Bishop);
    }
}

/// The pieces of the starting grid, rank by rank.
proof fn lemma_start_grid(t: Square)
    requires
        t.valid(),
    ensures
        t.rank == 1 ==> at(START_GRID, t) == Piece::WPawn,
        t.rank == 6 ==> at(START_GRID, t) == Piece::BPawn,
        2 <= t.rank <= 5 ==> at(START_GRID, t) == Piece::Empty,
        t.rank == 0 ==> at(START_GRID, t).color_of() == Color::White,
        t.rank == 7 ==> at(START_GRID, t).color_of() == Color::Black,
        (at(START_GRID, t) == Piece::WKing) == (t == sq(0, 4)),
        (at(START_GRID, t) == Piece::BKing) == (t == sq(7, 4)),
{
}

/// A ray whose first square is off the board, or holds a piece that does not attack
/// along it, carries no attack.
proof fn lemma_blocked_ray(g: Grid, s: Square, dr: int, df: int, by: Color, slider: PieceType)
    requires
        s.valid(),
        by != Color::Neither,
        slider != PieceType::Empty,
        !slider_at(g, s, dr, df, 1, by, slider),
        !empty_along(g, s, dr, df, 1),
    ensures
        !ray_attack(g, s, dr, df, by, slider),
{
}

} // verus!
