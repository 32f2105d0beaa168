//! What holds of every position and every move: the rules of the game as theorems about
//! the functions of this library.

use vstd::prelude::*;
use crate::attack::{attacked_by, in_check, lemma_in_check_single_king};
use crate::board::{
    at, grid_after, is_double_step, landing_piece, lemma_put, put, rights_lost, side_effects, sq,
    takes_in_passing, BoardView, Grid, InitialState, Move, Square,
};
use crate::enumerate::{game_status, lemma_no_legal_move, no_legal_move};
use crate::legality::{abs_diff, forward, home_rank, kingside_right, legal, queenside_right};
use crate::piece::{Color, GameOver, Piece, PieceType};

verus! {

/// Making a move and taking it back restores the board exactly: grid, castling rights,
/// the file open to a capture in passing, the side to move, the count of moves and the
/// recorded moves. This holds of every move, legal or not, on a board whose position is
/// the one that its recorded moves lead to from the snapshot.
pub proof fn law_undo_restores(b: BoardView, initial: InitialState, m: Move)
    requires
        b.replays_from(initial),
    ensures
        b.applied(m).undone(initial) == b,
{
    assert(b.applied(m).shortened() =~= b.history);
}

/// The square of the pawn that a capture in passing takes: the one behind the target
/// square, as the capturing side counts.
pub open spec fn passed_square(g: Grid, m: Move) -> Square {
    sq(m.to.rank - forward(at(g, m.from).color_of()), m.to.file as int)
}

/// The grid after a move, square by square: the source square is empty, the target
/// square holds the piece that arrives, the square of a pawn taken in passing is empty,
/// the rook of a castling king stands on the king's other side and its corner is empty,
/// and every other square is as it was.
pub proof fn law_grid_after_move(g: Grid, m: Move, t: Square)
    requires
        m.valid(),
        t.valid(),
    ensures
        at(grid_after(g, m), t) == (if t == m.from {
            Piece::Empty
        } else if t == m.to {
            landing_piece(g, m)
        } else if takes_in_passing(g, m) && 0 <= m.to.rank - forward(at(g, m.from).color_of()) < 8
            && t == passed_square(g, m) {
            Piece::Empty
        } else if is_king_castling(g, m) && t == sq(m.from.rank as int, if m.to.file == 6 {
            7
        } else {
            0
        }) {
            Piece::Empty
        } else if is_king_castling(g, m) && t == sq(m.from.rank as int, if m.to.file == 6 {
            5
        } else {
            3
        }) {
            PieceType::Rook.colored(at(g, m.from).color_of())
        } else {
            at(g, t)
        }),
{
    let piece = at(g, m.from);
    let e = side_effects(g, m);
    let placed = put(e, m.to, landing_piece(g, m));
    lemma_put(e, m.to, landing_piece(g, m));
    lemma_put(placed, m.from, Piece::Empty);
    if takes_in_passing(g, m) {
        if piece == Piece::WPawn && m.to.rank != 0 {
            lemma_put(g, sq(m.to.rank - 1, m.to.file as int), Piece::Empty);
        }
        if piece == Piece::BPawn && m.to.rank != 7 {
            lemma_put(g, sq(m.to.rank + 1, m.to.file as int), Piece::Empty);
        }
    } else if is_king_castling(g, m) {
        let h = m.from.rank as int;
        let rook = PieceType::Rook.colored(piece.color_of());
        if m.to.file == 6 {
            lemma_put(g, sq(h, 7), Piece::Empty);
            lemma_put(put(g, sq(h, 7), Piece::Empty), sq(h, 5), rook);
        } else {
            lemma_put(g, sq(h, 0), Piece::Empty);
            lemma_put(put(g, sq(h, 0), Piece::Empty), sq(h, 3), rook);
        }
    }
}

/// The king of either side goes from its home square two files to either side.
pub open spec fn is_king_castling(g: Grid, m: Move) -> bool {
    let piece = at(g, m.from);
    &&& piece.type_of() == PieceType::King
    &&& m.from == sq(home_rank(piece.color_of()), 4)
    &&& m.to == sq(home_rank(piece.color_of()), 6) || m.to == sq(home_rank(piece.color_of()), 2)
}

/// A legal move never leaves the mover's own king in check.
pub proof fn law_legal_move_keeps_king_safe(p: InitialState, m: Move, mover: Color)
    requires
        legal(p, m, mover),
    ensures
        !in_check(grid_after(p.state, m), mover),
{
}

/// After a legal move, the square on which the mover's only king stands is not attacked
/// by the other side.
pub proof fn law_legal_move_leaves_king_unattacked(p: InitialState, m: Move, mover: Color, king: Square)
    requires
        legal(p, m, mover),
        king.valid(),
        forall|t: Square| #[trigger]
            t.valid() ==> (at(grid_after(p.state, m), t) == PieceType::King.colored(mover)) == (t
                == king),
    ensures
        !attacked_by(grid_after(p.state, m), mover.opposite(), king),
{
    lemma_in_check_single_king(grid_after(p.state, m), mover, king);
}

/// The king moves further than to a neighbouring square.
pub open spec fn is_king_leap(p: InitialState, m: Move) -> bool {
    &&& at(p.state, m.from).type_of() == PieceType::King
    &&& abs_diff(m.from.rank as int, m.to.rank as int) > 1 || abs_diff(
        m.from.file as int,
        m.to.file as int,
    ) > 1
}

/// Castling is legal only from the king's home square to the second square on either
/// side, with the right to it still held, the rook at home, the squares between king and
/// rook empty, and neither the king's square nor the square it crosses attacked.
pub proof fn law_castling_conditions(p: InitialState, m: Move, mover: Color)
    requires
        legal(p, m, mover),
        is_king_leap(p, m),
    ensures
        mover != Color::Neither,
        m.from == sq(home_rank(mover), 4),
        m.to == sq(home_rank(mover), 6) || m.to == sq(home_rank(mover), 2),
        !attacked_by(p.state, mover.opposite(), m.from),
        m.to == sq(home_rank(mover), 6) ==> {
            &&& p.castle_rights & kingside_right(mover) != 0
            &&& at(p.state, sq(home_rank(mover), 7)) == PieceType::Rook.colored(mover)
            &&& at(p.state, sq(home_rank(mover), 5)) == Piece::Empty
            &&& at(p.state, sq(home_rank(mover), 6)) == Piece::Empty
            &&& !attacked_by(p.state, mover.opposite(), sq(home_rank(mover), 5))
        },
        m.to == sq(home_rank(mover), 2) ==> {
            &&& p.castle_rights & queenside_right(mover) != 0
            &&& at(p.state, sq(home_rank(mover), 0)) == PieceType::Rook.colored(mover)
            &&& at(p.state, sq(home_rank(mover), 1)) == Piece::Empty
            &&& at(p.state, sq(home_rank(mover), 2)) == Piece::Empty
            &&& at(p.state, sq(home_rank(mover), 3)) == Piece::Empty
            &&& !attacked_by(p.state, mover.opposite(), sq(home_rank(mover), 3))
        },
        !in_check(grid_after(p.state, m), mover),
{
}

/// Where the mover has one king only, the square on which it arrives by castling is not
/// attacked once the move is made.
pub proof fn law_castling_arrival_safe(p: InitialState, m: Move, mover: Color)
    requires
        legal(p, m, mover),
        is_king_leap(p, m),
        forall|t: Square| #[trigger]
            t.valid() ==> (at(p.state, t) == PieceType::King.colored(mover)) == (t == m.from),
    ensures
        !attacked_by(grid_after(p.state, m), mover.opposite(), m.to),
{
    let g = p.state;
    let h = home_rank(mover);
    let after = grid_after(g, m);
    let king = PieceType::King.colored(mover);
    let rook = PieceType::Rook.colored(mover);
    let rook_from = if m.to == sq(h, 6) {
        sq(h, 7)
    } else {
        sq(h, 0)
    };
    let rook_to = if m.to == sq(h, 6) {
        sq(h, 5)
    } else {
        sq(h, 3)
    };
    let g1 = put(g, rook_from, Piece::Empty);
    let g2 = put(g1, rook_to, rook);
    let g3 = put(g2, m.to, king);
    lemma_put(g, rook_from, Piece::Empty);
    lemma_put(g1, rook_to, rook);
    lemma_put(g2, m.to, king);
    lemma_put(g3, m.from, Piece::Empty);
    lemma_in_check_single_king(after, mover, m.to);
}

/// A move never gives a castling right back: a right that is lost before the move is
/// lost after it.
pub proof fn law_castling_rights_only_shrink(p: InitialState, m: Move, right: u8)
    requires
        p.castle_rights & right == 0,
    ensures
        p.after(m).castle_rights & right == 0,
        p.after(m).castle_rights & !p.castle_rights == 0,
{
    let x = p.castle_rights;
    let left = rights_lost(m.from);
    let reached = rights_lost(m.to);
    assert((x & !left & !reached) & right == 0) by (bit_vector)
        requires
            x & right == 0,
    ;
    assert((x & !left & !reached) & !x == 0) by (bit_vector);
}

/// A castling right that is lost stays lost through any sequence of moves.
pub proof fn law_castling_rights_never_return(p: InitialState, ms: Seq<Move>, right: u8)
    requires
        p.castle_rights & right == 0,
    ensures
        p.after_all(ms).castle_rights & right == 0,
    decreases ms.len(),
{
    if ms.len() > 0 {
        law_castling_rights_never_return(p, ms.drop_last(), right);
        law_castling_rights_only_shrink(p.after_all(ms.drop_last()), ms.last(), right);
    }
}

/// The move leaves or reaches the square.
pub open spec fn touches(m: Move, s: Square) -> bool {
    m.from == s || m.to == s
}

/// A move from the king's home square takes both castling rights of that side away, and
/// so does a move onto it; a move from a rook's home square, or onto it, takes away the
/// right on the rook's side. So a rook that moves loses its right, and so does a rook
/// that is taken at home.
pub proof fn law_moving_king_or_rook_loses_rights(p: InitialState, m: Move, side: Color)
    requires
        side != Color::Neither,
    ensures
        touches(m, sq(home_rank(side), 4)) ==> p.after(m).castle_rights & kingside_right(side) == 0
            && p.after(m).castle_rights & queenside_right(side) == 0,
        touches(m, sq(home_rank(side), 7)) ==> p.after(m).castle_rights & kingside_right(side) == 0,
        touches(m, sq(home_rank(side), 0)) ==> p.after(m).castle_rights & queenside_right(side) == 0,
{
    let x = p.castle_rights;
    let left = rights_lost(m.from);
    let reached = rights_lost(m.to);
    assert(forall|bit: u8| left & bit == bit || reached & bit == bit ==> #[trigger] ((x & !left
        & !reached) & bit) == 0) by {
        assert forall|bit: u8| left & bit == bit || reached & bit == bit implies #[trigger] ((x
            & !left & !reached) & bit) == 0 by {
            assert((x & !left & !reached) & bit == 0) by (bit_vector)
                requires
                    left & bit == bit || reached & bit == bit,
            ;
        }
    }
    assert(3u8 & 1u8 == 1u8 && 3u8 & 2u8 == 2u8 && 12u8 & 4u8 == 4u8 && 12u8 & 8u8 == 8u8 && 1u8 & 1u8
        == 1u8 && 2u8 & 2u8 == 2u8 && 4u8 & 4u8 == 4u8 && 8u8 & 8u8 == 8u8) by (bit_vector);
}

/// Once the king or the rook of a castling has moved from its home square, or a piece
/// has moved onto that square and so taken what stood there, that castling is illegal
/// in every position that follows, whatever is played.
pub proof fn law_no_castling_after_king_or_rook_moved(
    p: InitialState,
    m: Move,
    later: Seq<Move>,
    castling: Move,
    side: Color,
)
    requires
        side != Color::Neither,
        is_king_leap(p.after(m).after_all(later), castling),
        touches(m, sq(home_rank(side), 4)) || (touches(m, sq(home_rank(side), 7)) && castling.to
            == sq(home_rank(side), 6)) || (touches(m, sq(home_rank(side), 0)) && castling.to == sq(
            home_rank(side),
            2,
        )),
    ensures
        !legal(p.after(m).after_all(later), castling, side),
{
    law_moving_king_or_rook_loses_rights(p, m, side);
    let q = p.after(m);
    if castling.to == sq(home_rank(side), 6) {
        law_castling_rights_never_return(q, later, kingside_right(side));
    }
    if castling.to == sq(home_rank(side), 2) {
        law_castling_rights_never_return(q, later, queenside_right(side));
    }
}

/// A rook that is taken on its home square takes its castling right with it for good:
/// after a move onto a rook's home square, castling on that rook's side is illegal in
/// every position that follows, whatever stands on that square then.
pub proof fn law_no_castling_after_rook_captured(
    p: InitialState,
    capture: Move,
    later: Seq<Move>,
    castling: Move,
    side: Color,
)
    requires
        side != Color::Neither,
        is_king_leap(p.after(capture).after_all(later), castling),
        (capture.to == sq(home_rank(side), 7) && castling.to == sq(home_rank(side), 6)) || (capture.to
            == sq(home_rank(side), 0) && castling.to == sq(home_rank(side), 2)),
    ensures
        !legal(p.after(capture).after_all(later), castling, side),
{
    law_no_castling_after_king_or_rook_moved(p, capture, later, castling, side);
}

/// A capture in passing is legal only directly after a pawn has advanced two squares on
/// the file beside the capturing pawn: in the position that a move `m` leads to, a legal
/// pawn move diagonally onto an empty square shows that `m` was such an advance, on the
/// file of the target square.
pub proof fn law_en_passant_only_after_double_step(p: InitialState, m: Move, capture: Move, mover: Color)
    requires
        capture.valid(),
        legal(p.after(m), capture, mover),
        takes_in_passing(p.after(m).state, capture),
    ensures
        is_double_step(p.state, m),
        m.from.file == capture.to.file,
        abs_diff(capture.from.file as int, capture.to.file as int) == 1,
{
}

/// A capture in passing is illegal one ply later: once any move that is no two-square
/// pawn advance has been made, no pawn may move diagonally onto an empty square.
pub proof fn law_en_passant_expires(p: InitialState, m: Move, capture: Move, mover: Color)
    requires
        capture.valid(),
        !is_double_step(p.state, m),
        takes_in_passing(p.after(m).state, capture),
    ensures
        !legal(p.after(m), capture, mover),
{
}

/// A side to move that has no legal move is mated if its king is attacked and the game
/// is drawn if it is not; a side with a legal move plays on.
pub proof fn law_game_status(p: InitialState)
    ensures
        no_legal_move(p, p.active_color) && in_check(p.state, p.active_color) ==> game_status(p)
            == GameOver::Checkmate(p.active_color),
        no_legal_move(p, p.active_color) && !in_check(p.state, p.active_color) ==> game_status(p)
            == GameOver::Draw,
        !no_legal_move(p, p.active_color) ==> game_status(p) == GameOver::NotOver,
{
    lemma_no_legal_move(p, p.active_color);
}

} // verus!
