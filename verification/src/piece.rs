//! Pieces, colours and the values attached to them.

use vstd::prelude::*;

verus! {

/// What stands on one square: nothing, or one of the twelve chessmen.
#[derive(Copy, Clone, Debug, PartialEq, Eq, Structural)]
pub enum Piece {
    Empty,
    WKing,
    WQueen,
    WRook,
    WBishop,
    WKnight,
    WPawn,
    BKing,
    BQueen,
    BRook,
    BBishop,
    BKnight,
    BPawn,
}

/// The kind of a piece, without its colour.
#[derive(Copy, Clone, Debug, PartialEq, Eq, Structural)]
pub enum PieceType {
    Empty,
    King,
    Queen,
    Rook,
    Bishop,
    Knight,
    Pawn,
}

/// A side. `Neither` is the colour of an empty square.
#[derive(Copy, Clone, Debug, PartialEq, Eq, Structural)]
pub enum Color {
    Neither,
    White,
    Black,
}

/// How a game stands: still running, lost by the named colour, or drawn by stalemate.
#[derive(Copy, Clone, Debug, PartialEq, Eq, Structural)]
pub enum GameOver {
    NotOver,
    /// The colour is the side that has been mated.
    Checkmate(Color),
    Draw,
}

/// The bit of White's right to castle towards the queen's side.
pub const WQUEENSIDE: u8 = 1;

/// The bit of White's right to castle towards the king's side.
pub const WKINGSIDE: u8 = 2;

/// The bit of Black's right to castle towards the queen's side.
pub const BQUEENSIDE: u8 = 4;

/// The bit of Black's right to castle towards the king's side.
pub const BKINGSIDE: u8 = 8;

impl Color {
    /// The other side; an empty square's colour has no other side and stays as it is.
    pub open spec fn opposite(self) -> Color {
        match self {
            Color::Neither => Color::Neither,
            Color::White => Color::Black,
            Color::Black => Color::White,
        }
    }

    /// The opponent of a side.
    pub fn switch(&self) -> (other: Color)
        requires
            *self != Color::Neither,
        ensures
            other == self.opposite(),
    {
        match self {
            Color::White => Color::Black,
            _ => Color::White,
        }
    }

    /// A value as it counts in a signed score: for White, against Black.
    pub open spec fn signed(self, v: int) -> int {
        match self {
            Color::Neither => 0,
            Color::White => v,
            Color::Black => -v,
        }
    }
}

impl Piece {
    /// The side that the piece belongs to; `Neither` for an empty square.
    pub open spec fn color_of(&self) -> Color {
        match self {
            Piece::Empty => Color::Neither,
            Piece::WKing | Piece::WQueen | Piece::WRook | Piece::WBishop | Piece::WKnight
            | Piece::WPawn => Color::White,
            Piece::BKing | Piece::BQueen | Piece::BRook | Piece::BBishop | Piece::BKnight
            | Piece::BPawn => Color::Black,
        }
    }

    /// The kind of the piece; `Empty` for an empty square.
    pub open spec fn type_of(&self) -> PieceType {
        match self {
            Piece::Empty => PieceType::Empty,
            Piece::WKing | Piece::BKing => PieceType::King,
            Piece::WQueen | Piece::BQueen => PieceType::Queen,
            Piece::WRook | Piece::BRook => PieceType::Rook,
            Piece::WBishop | Piece::BBishop => PieceType::Bishop,
            Piece::WKnight | Piece::BKnight => PieceType::Knight,
            Piece::WPawn | Piece::BPawn => PieceType::Pawn,
        }
    }

    /// The figurine that shows the piece, `'.'` for an empty square.
    pub open spec fn symbol_of(&self) -> char {
        match self {
            Piece::Empty => '.',
            Piece::WKing => '♔',
            Piece::WQueen => '♕',
            Piece::WRook => '♖',
            Piece::WBishop => '♗',
            Piece::WKnight => '♘',
            Piece::WPawn => '♙',
            Piece::BKing => '♚',
            Piece::BQueen => '♛',
            Piece::BRook => '♜',
            Piece::BBishop => '♝',
            Piece::BKnight => '♞',
            Piece::BPawn => '♟',
        }
    }

    /// The side that the piece belongs to.
    #[verifier::when_used_as_spec(color_of)]
    pub fn color(&self) -> (c: Color)
        ensures
            c == self.color_of(),
    {
        match self {
            Piece::Empty => Color::Neither,
            Piece::WKing => Color::White,
            Piece::WQueen => Color::White,
            Piece::WRook => Color::White,
            Piece::WBishop => Color::White,
            Piece::WKnight => Color::White,
            Piece::WPawn => Color::White,
            Piece::BKing => Color::Black,
            Piece::BQueen => Color::Black,
            Piece::BRook => Color::Black,
            Piece::BBishop => Color::Black,
            Piece::BKnight => Color::Black,
            Piece::BPawn => Color::Black,
        }
    }

    /// The kind of the piece.
    #[verifier::when_used_as_spec(type_of)]
    pub fn piece_type(&self) -> (t: PieceType)
        ensures
            t == self.type_of(),
    {
        match self {
            Piece::Empty => PieceType::Empty,
            Piece::WKing => PieceType::King,
            Piece::WQueen => PieceType::Queen,
            Piece::WRook => PieceType::Rook,
            Piece::WBishop => PieceType::Bishop,
            Piece::WKnight => PieceType::Knight,
            Piece::WPawn => PieceType::Pawn,
            Piece::BKing => PieceType::King,
            Piece::BQueen => PieceType::Queen,
            Piece::BRook => PieceType::Rook,
            Piece::BBishop => PieceType::Bishop,
            Piece::BKnight => PieceType::Knight,
            Piece::BPawn => PieceType::Pawn,
        }
    }

    /// The figurine of the piece as a one-character string.
    pub fn char(&self) -> (s: &'static str)
        ensures
            s@ == seq![self.symbol_of()],
    {
        proof {
            reveal_strlit(".");
            reveal_strlit("♔");
            reveal_strlit("♕");
            reveal_strlit("♖");
            reveal_strlit("♗");
            reveal_strlit("♘");
            reveal_strlit("♙");
            reveal_strlit("♚");
            reveal_strlit("♛");
            reveal_strlit("♜");
            reveal_strlit("♝");
            reveal_strlit("♞");
            reveal_strlit("♟");
        }
        let s = match self {
            Piece::Empty => ".",
            Piece::WKing => "♔",
            Piece::WQueen => "♕",
            Piece::WRook => "♖",
            Piece::WBishop => "♗",
            Piece::WKnight => "♘",
            Piece::WPawn => "♙",
            Piece::BKing => "♚",
            Piece::BQueen => "♛",
            Piece::BRook => "♜",
            Piece::BBishop => "♝",
            Piece::BKnight => "♞",
            Piece::BPawn => "♟",
        };
        s
    }

    /// The figurine of the piece as a character.
    pub fn symbol(&self) -> (c: char)
        ensures
            c == self.symbol_of(),
    {
        match self {
            Piece::Empty => '.',
            Piece::WKing => '♔',
            Piece::WQueen => '♕',
            Piece::WRook => '♖',
            Piece::WBishop => '♗',
            Piece::WKnight => '♘',
            Piece::WPawn => '♙',
            Piece::BKing => '♚',
            Piece::BQueen => '♛',
            Piece::BRook => '♜',
            Piece::BBishop => '♝',
            Piece::BKnight => '♞',
            Piece::BPawn => '♟',
        }
    }
}

impl PieceType {
    /// The piece of this kind and the given colour; `Empty` where either is missing.
    pub open spec fn colored(&self, color: Color) -> Piece {
        match color {
            Color::Neither => Piece::Empty,
            Color::White => match self {
                PieceType::Empty => Piece::Empty,
                PieceType::King => Piece::WKing,
                PieceType::Queen => Piece::WQueen,
                PieceType::Rook => Piece::WRook,
                PieceType::Bishop => Piece::WBishop,
                PieceType::Knight => Piece::WKnight,
                PieceType::Pawn => Piece::WPawn,
            },
            Color::Black => match self {
                PieceType::Empty => Piece::Empty,
                PieceType::King => Piece::BKing,
                PieceType::Queen => Piece::BQueen,
                PieceType::Rook => Piece::BRook,
                PieceType::Bishop => Piece::BBishop,
                PieceType::Knight => Piece::BKnight,
                PieceType::Pawn => Piece::BPawn,
            },
        }
    }

    /// The piece of this kind and the given colour.
    #[verifier::when_used_as_spec(colored)]
    pub fn of_color(&self, color: Color) -> (p: Piece)
        ensures
            p == self.colored(color),
    {
        match color {
            Color::Neither => Piece::Empty,
            Color::White => match self {
                PieceType::Empty => Piece::Empty,
                PieceType::King => Piece::WKing,
                PieceType::Queen => Piece::WQueen,
                PieceType::Rook => Piece::WRook,
                PieceType::Bishop => Piece::WBishop,
                PieceType::Knight => Piece::WKnight,
                PieceType::Pawn => Piece::WPawn,
            },
            Color::Black => match self {
                PieceType::Empty => Piece::Empty,
                PieceType::King => Piece::BKing,
                PieceType::Queen => Piece::BQueen,
                PieceType::Rook => Piece::BRook,
                PieceType::Bishop => Piece::BBishop,
                PieceType::Knight => Piece::BKnight,
                PieceType::Pawn => Piece::BPawn,
            },
        }
    }
}

} // verus!
