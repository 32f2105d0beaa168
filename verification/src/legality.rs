//! The rules of movement: which moves a side may make in a position.

use vstd::prelude::*;
use crate::attack::{along, attacked_by, empty_along, in_check, ray_clear};
use crate::board::{at, grid_after, sq, Board, Grid, InitialState, Move, Square};
use crate::piece::{Color, Piece, PieceType, BKINGSIDE, BQUEENSIDE, WKINGSIDE, WQUEENSIDE};

verus! {

/// The distance between two coordinates.
pub open spec fn abs_diff(a: int, b: int) -> int {
    if a >= b {
        a - b
    } else {
        b - a
    }
}

/// The number of king steps between the two squares of a move.
pub open spec fn reach(m: Move) -> int {
    let dr = abs_diff(m.from.rank as int, m.to.rank as int);
    let df = abs_diff(m.from.file as int, m.to.file as int);
    if dr >= df {
        dr
    } else {
        df
    }
}

/// The two squares of the move lie on one rank, file or diagonal.
pub open spec fn aligned(m: Move) -> bool {
    let dr = abs_diff(m.from.rank as int, m.to.rank as int);
    let df = abs_diff(m.from.file as int, m.to.file as int);
    dr == 0 || df == 0 || dr == df
}

/// Every square strictly between the two squares of the move is empty.
pub open spec fn path_clear(g: Grid, m: Move) -> bool {
    ray_clear(g, m.from, m.to.rank - m.from.rank, m.to.file - m.from.file, reach(m))
}

/// The rank on which a side's pieces start.
pub open spec fn home_rank(color: Color) -> int {
    if color == Color::White {
        0
    } else {
        7
    }
}

/// The direction in which a side's pawns advance.
pub open spec fn forward(color: Color) -> int {
    if color == Color::White {
        1
    } else {
        -1
    }
}

/// The castling right of a side towards the king's side.
pub open spec fn kingside_right(color: Color) -> u8 {
    if color == Color::White {
        WKINGSIDE
    } else {
        BKINGSIDE
    }
}

/// The castling right of a side towards the queen's side.
pub open spec fn queenside_right(color: Color) -> u8 {
    if color == Color::White {
        WQUEENSIDE
    } else {
        BQUEENSIDE
    }
}

/// The move is the king's part of castling towards the king's side.
pub open spec fn is_kingside_castle(m: Move, color: Color) -> bool {
    m.from == sq(home_rank(color), 4) && m.to == sq(home_rank(color), 6)
}

/// The move is the king's part of castling towards the queen's side.
pub open spec fn is_queenside_castle(m: Move, color: Color) -> bool {
    m.from == sq(home_rank(color), 4) && m.to == sq(home_rank(color), 2)
}

/// Castling towards the king's side is open: the right is held, the rook is at home, the
/// squares between king and rook are empty, and neither the king's square nor the one it
/// crosses is attacked.
pub open spec fn kingside_open(p: InitialState, color: Color) -> bool {
    let h = home_rank(color);
    &&& color != Color::Neither
    &&& p.castle_rights & kingside_right(color) != 0
    &&& at(p.state, sq(h, 7)) == PieceType::Rook.colored(color)
    &&& at(p.state, sq(h, 5)) == Piece::Empty
    &&& at(p.state, sq(h, 6)) == Piece::Empty
    &&& !attacked_by(p.state, color.opposite(), sq(h, 4))
    &&& !attacked_by(p.state, color.opposite(), sq(h, 5))
}

/// Castling towards the queen's side is open, in the same sense.
pub open spec fn queenside_open(p: InitialState, color: Color) -> bool {
    let h = home_rank(color);
    &&& color != Color::Neither
    &&& p.castle_rights & queenside_right(color) != 0
    &&& at(p.state, sq(h, 0)) == PieceType::Rook.colored(color)
    &&& at(p.state, sq(h, 1)) == Piece::Empty
    &&& at(p.state, sq(h, 2)) == Piece::Empty
    &&& at(p.state, sq(h, 3)) == Piece::Empty
    &&& !attacked_by(p.state, color.opposite(), sq(h, 4))
    &&& !attacked_by(p.state, color.opposite(), sq(h, 3))
}

/// The move is a castling move of the given side that the position allows, but for the
/// safety of the square on which the king arrives.
pub open spec fn castle_ok(p: InitialState, m: Move, color: Color) -> bool {
    ||| is_kingside_castle(m, color) && kingside_open(p, color)
    ||| is_queenside_castle(m, color) && queenside_open(p, color)
}

/// The move has the shape of a pawn move of the given side: one step ahead onto an empty
/// square, two steps ahead from the pawn's home rank over empty squares, or one step
/// diagonally ahead onto an enemy piece or onto the file on which a capture in passing
/// is open.
pub open spec fn pawn_ok(p: InitialState, m: Move, color: Color) -> bool {
    let g = p.state;
    let ahead = forward(color);
    if m.to.rank - m.from.rank == ahead {
        if m.from.file == m.to.file {
            at(g, m.to) == Piece::Empty
        } else {
            &&& abs_diff(m.from.file as int, m.to.file as int) == 1
            &&& at(g, m.to).color_of() == color.opposite() || (m.from.rank == home_rank(color) + 4
                * ahead && m.to.file == p.en_passant)
        }
    } else {
        &&& m.from.rank == home_rank(color) + ahead
        &&& m.to.rank - m.from.rank == 2 * ahead
        &&& m.from.file == m.to.file
        &&& at(g, m.to) == Piece::Empty
        &&& at(g, sq(m.from.rank + ahead, m.to.file as int)) == Piece::Empty
    }
}

/// The move has the shape that the piece on its source square may make.
pub open spec fn shape_ok(p: InitialState, m: Move) -> bool {
    let piece = at(p.state, m.from);
    let dr = abs_diff(m.from.rank as int, m.to.rank as int);
    let df = abs_diff(m.from.file as int, m.to.file as int);
    match piece.type_of() {
        PieceType::King => (dr <= 1 && df <= 1) || castle_ok(p, m, piece.color_of()),
        PieceType::Knight => (dr == 2 && df == 1) || (dr == 1 && df == 2),
        PieceType::Bishop => dr == df && path_clear(p.state, m),
        PieceType::Rook => (dr == 0 || df == 0) && path_clear(p.state, m),
        PieceType::Queen => aligned(m) && path_clear(p.state, m),
        PieceType::Pawn => pawn_ok(p, m, piece.color_of()),
        PieceType::Empty => false,
    }
}

/// After the move the mover's king is not attacked.
pub open spec fn self_check_safe(g: Grid, m: Move, mover: Color) -> bool {
    !in_check(grid_after(g, m), mover)
}

/// The side `active` may make the move in the position.
pub open spec fn legal(p: InitialState, m: Move, active: Color) -> bool {
    &&& m.from != m.to
    &&& at(p.state, m.from) != Piece::Empty
    &&& at(p.state, m.from).color_of() == active
    &&& at(p.state, m.to).color_of() != active
    &&& shape_ok(p, m)
    &&& self_check_safe(p.state, m, active)
}

/// The distance between two coordinates.
pub fn distance(a: u8, b: u8) -> (d: u8)
    ensures
        d == abs_diff(a as int, b as int),
{
    if a >= b {
        a - b
    } else {
        b - a
    }
}

impl Board {
    /// Whether the side `active` may make the move: the piece is its own, the target holds
    /// no piece of its own, the move has the piece's shape, and its king is not left
    /// attacked.
    pub fn check_move(&self, mov: Move, active: Color) -> (b: bool)
        requires
            mov.valid(),
        ensures
            b == legal(self@.position, mov, active),
            b ==> !in_check(grid_after(self.state, mov), active),
    {
        let piece = self.piece_at(mov.from);
        let target = self.piece_at(mov.to);

        if mov.from.rank == mov.to.rank && mov.from.file == mov.to.file {
            return false;
        }
        if piece.color() != active || piece == Piece::Empty {
            return false;
        }
        if target.color() == piece.color() {
            return false;
        }
        let dr = distance(mov.from.rank, mov.to.rank);
        let df = distance(mov.from.file, mov.to.file);
        let shape = match piece {
            Piece::WKing | Piece::BKing => (dr <= 1 && df <= 1) || self.castle_check(mov, active),
            Piece::WKnight | Piece::BKnight => (dr == 2 && df == 1) || (dr == 1 && df == 2),
            Piece::WBishop | Piece::BBishop => dr == df && self.nothing_between(mov),
            Piece::WRook | Piece::BRook => (dr == 0 || df == 0) && self.nothing_between(mov),
            Piece::WQueen | Piece::BQueen => (dr == 0 || df == 0 || dr == df) && self.nothing_between(
                mov,
            ),
            Piece::WPawn => self.valid_wpawn(mov),
            Piece::BPawn => self.valid_bpawn(mov),
            Piece::Empty => false,
        };
        shape && self.leaves_king_safe(mov, active)
    }

    /// The grid as it stands after the move, the board itself left as it is.
    pub fn simulate(&self, mov: Move) -> (after: [[Piece; 8]; 8])
        requires
            mov.valid(),
        ensures
            after == grid_after(self.state, mov),
    {
        let mut grid = self.state;
        let piece = Board::check_for_side_effects(&mut grid, &mov);
        grid[mov.to.rank as usize][mov.to.file as usize] = piece;
        grid[mov.from.rank as usize][mov.from.file as usize] = Piece::Empty;
        grid
    }

    /// Whether the mover's king is out of attack once the move is made.
    pub fn leaves_king_safe(&self, mov: Move, mover: Color) -> (b: bool)
        requires
            mov.valid(),
            mover != Color::Neither,
        ensures
            b == self_check_safe(self.state, mov, mover),
    {
        let after = self.simulate(mov);
        !Board::in_check(&after, mover)
    }

    /// Whether the move is a castling move of the side that the position allows, the
    /// king's arrival square not looked at.
    pub fn castle_check(&self, mov: Move, color: Color) -> (b: bool)
        requires
            mov.valid(),
        ensures
            b == castle_ok(self@.position, mov, color),
    {
        if color == Color::Neither {
            return false;
        }
        let h: u8 = if color == Color::White {
            0
        } else {
            7
        };
        if !(mov.from.rank == h && mov.from.file == 4 && mov.to.rank == h && (mov.to.file == 6
            || mov.to.file == 2)) {
            return false;
        }
        let enemy = color.switch();
        let rook = PieceType::Rook.of_color(color);
        let row = &self.state[h as usize];
        if Board::under_attack_by(&self.state, enemy, Square { rank: h, file: 4 }) {
            return false;
        }
        if mov.to.file == 6 {
            let right: u8 = if color == Color::White {
                WKINGSIDE
            } else {
                BKINGSIDE
            };
            self.castle_rights & right != 0 && row[7] == rook && row[5] == Piece::Empty && row[6]
                == Piece::Empty && !Board::under_attack_by(
                &self.state,
                enemy,
                Square { rank: h, file: 5 },
            )
        } else {
            let right: u8 = if color == Color::White {
                WQUEENSIDE
            } else {
                BQUEENSIDE
            };
            self.castle_rights & right != 0 && row[0] == rook && row[1] == Piece::Empty && row[2]
                == Piece::Empty && row[3] == Piece::Empty && !Board::under_attack_by(
                &self.state,
                enemy,
                Square { rank: h, file: 3 },
            )
        }
    }

    /// Whether the move has the shape of a white pawn's move.
    pub fn valid_wpawn(&self, mov: Move) -> (b: bool)
        requires
            mov.valid(),
        ensures
            b == pawn_ok(self@.position, mov, Color::White),
    {
        if mov.from.rank + 1 != mov.to.rank {
            return mov.from.rank == 1 && mov.from.rank + 2 == mov.to.rank && mov.from.file
                == mov.to.file && self.piece_at(mov.to) == Piece::Empty && self.piece_at(
                Square { rank: 2, file: mov.to.file },
            ) == Piece::Empty;
        }
        if mov.from.file == mov.to.file {
            return self.piece_at(mov.to) == Piece::Empty;
        }
        distance(mov.to.file, mov.from.file) == 1 && (self.piece_at(mov.to).color() == Color::Black
            || (mov.from.rank == 4 && mov.to.file == self.en_passant))
    }

    /// Whether the move has the shape of a black pawn's move.
    pub fn valid_bpawn(&self, mov: Move) -> (b: bool)
        requires
            mov.valid(),
        ensures
            b == pawn_ok(self@.position, mov, Color::Black),
    {
        if mov.to.rank + 1 != mov.from.rank {
            return mov.from.rank == 6 && mov.to.rank + 2 == mov.from.rank && mov.from.file
                == mov.to.file && self.piece_at(mov.to) == Piece::Empty && self.piece_at(
                Square { rank: 5, file: mov.to.file },
            ) == Piece::Empty;
        }
        if mov.from.file == mov.to.file {
            return self.piece_at(mov.to) == Piece::Empty;
        }
        distance(mov.to.file, mov.from.file) == 1 && (self.piece_at(mov.to).color() == Color::White
            || (mov.from.rank == 3 && mov.to.file == self.en_passant))
    }

    /// Whether all squares strictly between the two squares of an aligned move are empty.
    pub fn nothing_between(&self, mov: Move) -> (b: bool)
        requires
            mov.valid(),
            aligned(mov),
            mov.from != mov.to,
        ensures
            b == path_clear(self.state, mov),
    {
        let rstep: i8 = if mov.from.rank < mov.to.rank {
            1
        } else if mov.from.rank == mov.to.rank {
            0
        } else {
            -1
        };
        let fstep: i8 = if mov.from.file < mov.to.file {
            1
        } else if mov.from.file == mov.to.file {
            0
        } else {
            -1
        };
        let ghost dr = mov.to.rank - mov.from.rank;
        let ghost df = mov.to.file - mov.from.file;
        let ghost n = reach(mov);
        let mut r: i8 = mov.from.rank as i8 + rstep;
        let mut f: i8 = mov.from.file as i8 + fstep;
        let ghost mut k: int = 1;
        while !(r == mov.to.rank as i8 && f == mov.to.file as i8)
            invariant
                mov.valid(),
                aligned(mov),
                dr == mov.to.rank - mov.from.rank,
                df == mov.to.file - mov.from.file,
                n == reach(mov),
                1 <= k <= n,
                rstep == (if dr > 0 { 1int } else if dr < 0 { -1 } else { 0 }),
                fstep == (if df > 0 { 1int } else if df < 0 { -1 } else { 0 }),
                r == along(mov.from.rank as int, dr, k),
                f == along(mov.from.file as int, df, k),
                ray_clear(self.state, mov.from, dr, df, k),
            decreases n - k,
        {
            if self.state[r as usize][f as usize] != Piece::Empty {
                assert(!empty_along(self.state, mov.from, dr, df, k));
                return false;
            }
            r = r + rstep;
            f = f + fstep;
            proof {
                k = k + 1;
            }
        }
        true
    }
}

} // verus!
