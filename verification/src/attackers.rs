//! What it means that a square is attacked: some piece of the attacking side could move
//! onto it by the way it captures.

use vstd::prelude::*;
use crate::attack::{
    along, attacked_by, diagonal_attack, empty_along, in_check, is_direction,
    lemma_in_check_single_king, pawn_attack, pawn_source, piece_at_offset, ray_attack, ray_clear,
    slider_at, straight_attack,
};
use crate::board::{at, Grid, InitialState, Move, Square};
use crate::legality::{abs_diff, forward, legal, reach};
use crate::piece::{Color, Piece, PieceType};

verus! {

/// The piece on `t` bears on the square `s`: a king on a neighbouring square, a knight a
/// jump away, a pawn diagonally behind `s` as its side counts, or a rook, bishop or
/// queen on a line with `s` that is right for it, with nothing between.
pub open spec fn bears_on(g: Grid, t: Square, s: Square) -> bool {
    let p = at(g, t);
    let m = Move { from: t, to: s };
    let dr = abs_diff(t.rank as int, s.rank as int);
    let df = abs_diff(t.file as int, s.file as int);
    let clear = ray_clear(g, t, s.rank - t.rank, s.file - t.file, reach(m));
    match p.type_of() {
        PieceType::Empty => false,
        PieceType::King => reach(m) == 1,
        PieceType::Knight => (dr == 2 && df == 1) || (dr == 1 && df == 2),
        PieceType::Pawn => df == 1 && s.rank - t.rank == forward(p.color_of()),
        PieceType::Rook => reach(m) >= 1 && (dr == 0 || df == 0) && clear,
        PieceType::Bishop => reach(m) >= 1 && dr == df && clear,
        PieceType::Queen => reach(m) >= 1 && (dr == 0 || df == 0 || dr == df) && clear,
    }
}

/// The piece on `t` is of the colour `by` and bears on `s`.
pub open spec fn is_attacker(g: Grid, by: Color, t: Square, s: Square) -> bool {
    t.valid() && at(g, t) != Piece::Empty && at(g, t).color_of() == by && bears_on(g, t, s)
}

/// Some piece of the colour `by` bears on `s`.
pub open spec fn has_attacker(g: Grid, by: Color, s: Square) -> bool {
    exists|t: Square| #[trigger] is_attacker(g, by, t, s)
}

/// A stretch of empty squares is empty from either end.
pub proof fn lemma_ray_reversed(g: Grid, a: Square, b: Square, dr: int, df: int, k: int)
    requires
        k >= 1,
        b.rank == along(a.rank as int, dr, k),
        b.file == along(a.file as int, df, k),
        ray_clear(g, a, dr, df, k),
    ensures
        ray_clear(g, b, -dr, -df, k),
{
    assert forall|j: int| 1 <= j < k implies #[trigger] empty_along(g, b, -dr, -df, j) by {
        assert(empty_along(g, a, dr, df, k - j));
    }
}

/// Whether a stretch of squares is empty depends on the signs of the direction only.
pub proof fn lemma_ray_clear_by_sign(g: Grid, a: Square, dr: int, df: int, er: int, ef: int, k: int)
    requires
        (dr > 0) == (er > 0),
        (dr < 0) == (er < 0),
        (df > 0) == (ef > 0),
        (df < 0) == (ef < 0),
    ensures
        ray_clear(g, a, dr, df, k) == ray_clear(g, a, er, ef, k),
{
    if ray_clear(g, a, dr, df, k) {
        assert forall|j: int| 1 <= j < k implies #[trigger] empty_along(g, a, er, ef, j) by {
            assert(empty_along(g, a, dr, df, j));
        }
    }
    if ray_clear(g, a, er, ef, k) {
        assert forall|j: int| 1 <= j < k implies #[trigger] empty_along(g, a, dr, df, j) by {
            assert(empty_along(g, a, er, ef, j));
        }
    }
}

/// The piece that a ray from `s` meets first, if it attacks along the ray, bears on `s`.
pub proof fn lemma_ray_attack_has_attacker(g: Grid, s: Square, dr: int, df: int, by: Color, slider: PieceType)
    requires
        s.valid(),
        by != Color::Neither,
        is_direction(dr, df),
        (slider == PieceType::Rook && (dr == 0 || df == 0)) || (slider == PieceType::Bishop && dr != 0
            && df != 0),
        ray_attack(g, s, dr, df, by, slider),
    ensures
        has_attacker(g, by, s),
{
    let k = choose|k: int| #[trigger] slider_at(g, s, dr, df, k, by, slider);
    let t = Square { rank: along(s.rank as int, dr, k) as u8, file: along(s.file as int, df, k) as u8 };
    lemma_ray_reversed(g, s, t, dr, df, k);
    lemma_ray_clear_by_sign(g, t, -dr, -df, s.rank - t.rank, s.file - t.file, k);
    assert(is_attacker(g, by, t, s));
}

/// A piece at an offset that is a knight's jump or a pawn's capture bears on `s`.
pub proof fn lemma_step_attack_has_attacker(g: Grid, s: Square, dr: int, df: int, by: Color, kind: PieceType)
    requires
        s.valid(),
        by != Color::Neither,
        piece_at_offset(g, s, dr, df, kind.colored(by)),
        (kind == PieceType::Knight && ((abs_diff(dr, 0) == 2 && abs_diff(df, 0) == 1) || (abs_diff(
            dr,
            0,
        ) == 1 && abs_diff(df, 0) == 2))) || (kind == PieceType::Pawn && dr == pawn_source(by)
            && abs_diff(df, 0) == 1),
    ensures
        has_attacker(g, by, s),
{
    let t = Square { rank: (s.rank + dr) as u8, file: (s.file + df) as u8 };
    assert(is_attacker(g, by, t, s));
}

/// A piece that bears on `s` is found by the rays and steps that are looked along from
/// `s`.
pub proof fn lemma_attacker_is_found(g: Grid, by: Color, t: Square, s: Square)
    requires
        s.valid(),
        by != Color::Neither,
        is_attacker(g, by, t, s),
    ensures
        attacked_by(g, by, s),
{
    let p = at(g, t);
    let m = Move { from: t, to: s };
    let k = reach(m);
    let dr: int = if t.rank > s.rank {
        1
    } else if t.rank < s.rank {
        -1
    } else {
        0
    };
    let df: int = if t.file > s.file {
        1
    } else if t.file < s.file {
        -1
    } else {
        0
    };
    match p.type_of() {
        PieceType::Knight => {
        },
        PieceType::Pawn => {
        },
        PieceType::King => {
            if dr == 0 || df == 0 {
                assert(slider_at(g, s, dr, df, 1, by, PieceType::Rook));
            } else {
                assert(slider_at(g, s, dr, df, 1, by, PieceType::Bishop));
            }
        },
        PieceType::Empty => {},
        _ => {
            lemma_ray_clear_by_sign(g, t, s.rank - t.rank, s.file - t.file, -dr, -df, k);
            lemma_ray_reversed(g, t, s, -dr, -df, k);
            if dr == 0 || df == 0 {
                assert(slider_at(g, s, dr, df, k, by, PieceType::Rook));
            } else {
                assert(slider_at(g, s, dr, df, k, by, PieceType::Bishop));
            }
        },
    }
}

/// A square is attacked by a side exactly if some piece of that side bears on it.
pub proof fn law_attacked_means_attacker(g: Grid, by: Color, s: Square)
    requires
        s.valid(),
    ensures
        attacked_by(g, by, s) == (by != Color::Neither && has_attacker(g, by, s)),
{
    if attacked_by(g, by, s) {
        if straight_attack(g, by, s) {
            if ray_attack(g, s, 1, 0, by, PieceType::Rook) {
                lemma_ray_attack_has_attacker(g, s, 1, 0, by, PieceType::Rook);
            } else if ray_attack(g, s, 0, 1, by, PieceType::Rook) {
                lemma_ray_attack_has_attacker(g, s, 0, 1, by, PieceType::Rook);
            } else if ray_attack(g, s, -1, 0, by, PieceType::Rook) {
                lemma_ray_attack_has_attacker(g, s, -1, 0, by, PieceType::Rook);
            } else {
                lemma_ray_attack_has_attacker(g, s, 0, -1, by, PieceType::Rook);
            }
        } else if diagonal_attack(g, by, s) {
            if ray_attack(g, s, 1, 1, by, PieceType::Bishop) {
                lemma_ray_attack_has_attacker(g, s, 1, 1, by, PieceType::Bishop);
            } else if ray_attack(g, s, -1, 1, by, PieceType::Bishop) {
                lemma_ray_attack_has_attacker(g, s, -1, 1, by, PieceType::Bishop);
            } else if ray_attack(g, s, 1, -1, by, PieceType::Bishop) {
                lemma_ray_attack_has_attacker(g, s, 1, -1, by, PieceType::Bishop);
            } else {
                lemma_ray_attack_has_attacker(g, s, -1, -1, by, PieceType::Bishop);
            }
        } else if pawn_attack(g, by, s) {
            if piece_at_offset(g, s, pawn_source(by), 1, PieceType::Pawn.colored(by)) {
                lemma_step_attack_has_attacker(g, s, pawn_source(by), 1, by, PieceType::Pawn);
            } else {
                lemma_step_attack_has_attacker(g, s, pawn_source(by), -1, by, PieceType::Pawn);
            }
        } else {
            let n = PieceType::Knight.colored(by);
            if piece_at_offset(g, s, 2, 1, n) {
                lemma_step_attack_has_attacker(g, s, 2, 1, by, PieceType::Knight);
            } else if piece_at_offset(g, s, 1, 2, n) {
                lemma_step_attack_has_attacker(g, s, 1, 2, by, PieceType::Knight);
            } else if piece_at_offset(g, s, -2, 1, n) {
                lemma_step_attack_has_attacker(g, s, -2, 1, by, PieceType::Knight);
            } else if piece_at_offset(g, s, 1, -2, n) {
                lemma_step_attack_has_attacker(g, s, 1, -2, by, PieceType::Knight);
            } else if piece_at_offset(g, s, 2, -1, n) {
                lemma_step_attack_has_attacker(g, s, 2, -1, by, PieceType::Knight);
            } else if piece_at_offset(g, s, -1, 2, n) {
                lemma_step_attack_has_attacker(g, s, -1, 2, by, PieceType::Knight);
            } else if piece_at_offset(g, s, -2, -1, n) {
                lemma_step_attack_has_attacker(g, s, -2, -1, by, PieceType::Knight);
            } else {
                lemma_step_attack_has_attacker(g, s, -1, -2, by, PieceType::Knight);
            }
        }
    }
    if by != Color::Neither && has_attacker(g, by, s) {
        let t = choose|t: Square| #[trigger] is_attacker(g, by, t, s);
        lemma_attacker_is_found(g, by, t, s);
    }
}

/// A legal move onto an occupied square is made by a piece that attacks that square.
pub proof fn law_capture_is_attack(p: InitialState, m: Move, mover: Color)
    requires
        m.valid(),
        legal(p, m, mover),
        at(p.state, m.to) != Piece::Empty,
    ensures
        attacked_by(p.state, mover, m.to),
{
    lemma_attacker_is_found(p.state, mover, m.from, m.to);
}

/// A king is never taken: where the side that is not to move has one king and is not in
/// check, no legal move of the other side lands on that king's square.
pub proof fn law_kings_are_not_captured(p: InitialState, m: Move, mover: Color, king: Square)
    requires
        m.valid(),
        mover != Color::Neither,
        legal(p, m, mover),
        king.valid(),
        forall|t: Square| #[trigger]
            t.valid() ==> (at(p.state, t) == PieceType::King.colored(mover.opposite())) == (t == king),
        !in_check(p.state, mover.opposite()),
    ensures
        m.to != king,
{
    lemma_in_check_single_king(p.state, mover.opposite(), king);
    if m.to == king {
        law_capture_is_attack(p, m, mover);
    }
}

} // verus!
