//! The position: squares, moves, the grid of pieces, and how a move changes them.

use vstd::prelude::*;
use vstd::array::spec_array_update;
use crate::piece::{Color, Piece, BKINGSIDE, BQUEENSIDE, WKINGSIDE, WQUEENSIDE};

verus! {

/// The 8×8 grid of pieces; the first index is the rank, the second the file.
pub type Grid = [[Piece; 8]; 8];

/// A square of the board, by rank and file, both counted from 0.
#[derive(Copy, Clone, Debug, PartialEq, Eq, Structural)]
pub struct Square {
    pub rank: u8,
    pub file: u8,
}

/// A move from one square to another. A pawn that reaches the last rank becomes a queen.
#[derive(Copy, Clone, Debug, PartialEq, Eq, Structural)]
pub struct Move {
    pub from: Square,
    pub to: Square,
}

/// A position together with the moves that led to it.
#[derive(Clone)]
pub struct Board {
    pub state: [[Piece; 8]; 8],
    pub history: Vec<Move>,
    pub castle_rights: u8,
    pub active_color: Color,
    pub move_count: usize,
    pub en_passant: u8,
}

/// A position without history: what a board is restored to before its moves are replayed.
#[derive(Copy, Clone)]
pub struct InitialState {
    pub state: [[Piece; 8]; 8],
    pub castle_rights: u8,
    pub active_color: Color,
    pub move_count: usize,
    pub en_passant: u8,
}

/// The mathematical value of a [`Board`]: its position and the sequence of its moves.
pub struct BoardView {
    pub position: InitialState,
    pub history: Seq<Move>,
}

impl Square {
    /// The square lies on the board.
    pub open spec fn valid(self) -> bool {
        self.rank < 8 && self.file < 8
    }
}

impl Move {
    /// Both squares lie on the board.
    pub open spec fn valid(self) -> bool {
        self.from.valid() && self.to.valid()
    }
}

/// The square of rank `r` and file `f`.
pub open spec fn sq(r: int, f: int) -> Square {
    Square { rank: r as u8, file: f as u8 }
}

/// The piece on a square.
pub open spec fn at(g: Grid, s: Square) -> Piece {
    g[s.rank as int][s.file as int]
}

/// The grid with one square replaced.
pub open spec fn put(g: Grid, s: Square, p: Piece) -> Grid {
    spec_array_update(g, s.rank as int, spec_array_update(g[s.rank as int], s.file as int, p))
}

/// What `put` does, square by square.
pub proof fn lemma_put(g: Grid, s: Square, p: Piece)
    requires
        s.valid(),
    ensures
        forall|t: Square| #[trigger]
            t.valid() ==> at(put(g, s, p), t) == (if t == s {
                p
            } else {
                at(g, t)
            }),
{
}

/// The piece that arrives on the target square: the mover, or a queen for a pawn that
/// reaches the last rank.
pub open spec fn landing_piece(g: Grid, m: Move) -> Piece {
    let piece = at(g, m.from);
    if piece == Piece::WPawn && m.to.rank == 7 {
        Piece::WQueen
    } else if piece == Piece::BPawn && m.to.rank == 0 {
        Piece::BQueen
    } else {
        piece
    }
}

/// A pawn steps diagonally onto an empty square short of the last rank: the shape of a
/// capture in passing.
pub open spec fn takes_in_passing(g: Grid, m: Move) -> bool {
    &&& at(g, m.from) == Piece::WPawn || at(g, m.from) == Piece::BPawn
    &&& landing_piece(g, m) == at(g, m.from)
    &&& m.from.file != m.to.file
    &&& at(g, m.to) == Piece::Empty
}

/// The grid after the effects of a move that reach beyond its two squares: the pawn taken
/// in passing leaves the board, and the rook of a castling king goes to the king's other side.
pub open spec fn side_effects(g: Grid, m: Move) -> Grid {
    let piece = at(g, m.from);
    if takes_in_passing(g, m) {
        if piece == Piece::WPawn {
            if m.to.rank != 0 {
                put(g, sq(m.to.rank - 1, m.to.file as int), Piece::Empty)
            } else {
                g
            }
        } else {
            if m.to.rank != 7 {
                put(g, sq(m.to.rank + 1, m.to.file as int), Piece::Empty)
            } else {
                g
            }
        }
    } else if piece == Piece::WKing && m.from == sq(0, 4) {
        if m.to == sq(0, 6) {
            put(put(g, sq(0, 7), Piece::Empty), sq(0, 5), Piece::WRook)
        } else if m.to == sq(0, 2) {
            put(put(g, sq(0, 0), Piece::Empty), sq(0, 3), Piece::WRook)
        } else {
            g
        }
    } else if piece == Piece::BKing && m.from == sq(7, 4) {
        if m.to == sq(7, 6) {
            put(put(g, sq(7, 7), Piece::Empty), sq(7, 5), Piece::BRook)
        } else if m.to == sq(7, 2) {
            put(put(g, sq(7, 0), Piece::Empty), sq(7, 3), Piece::BRook)
        } else {
            g
        }
    } else {
        g
    }
}

/// The grid after a move: its side effects, then the arriving piece on the target square
/// and the source square left empty.
pub open spec fn grid_after(g: Grid, m: Move) -> Grid {
    put(put(side_effects(g, m), m.to, landing_piece(g, m)), m.from, Piece::Empty)
}

/// The castling rights that go with a square: both rights of a side with its king's home
/// square, one right with each rook's home square, none with any other square.
pub open spec fn rights_lost(home: Square) -> u8 {
    if home == sq(0, 4) {
        3
    } else if home == sq(7, 4) {
        12
    } else if home == sq(0, 0) {
        WQUEENSIDE
    } else if home == sq(7, 0) {
        BQUEENSIDE
    } else if home == sq(0, 7) {
        WKINGSIDE
    } else if home == sq(7, 7) {
        BKINGSIDE
    } else {
        0
    }
}

/// The castling rights after a move: those held before, less the rights that go with
/// the square the move leaves, where a king or rook has moved, and less those that go
/// with the square it arrives on, where a rook at home has been taken.
pub open spec fn rights_after(rights: u8, m: Move) -> u8 {
    rights & !rights_lost(m.from) & !rights_lost(m.to)
}

/// A pawn advances two ranks.
pub open spec fn is_double_step(g: Grid, m: Move) -> bool {
    &&& at(g, m.from) == Piece::WPawn || at(g, m.from) == Piece::BPawn
    &&& m.to.rank - m.from.rank == 2 || m.from.rank - m.to.rank == 2
}

/// The file on which a capture in passing is open after a move, 8 for none.
pub open spec fn en_passant_after(g: Grid, m: Move) -> u8 {
    if is_double_step(g, m) {
        m.from.file
    } else {
        8
    }
}

impl InitialState {
    /// The position after a move. The move is carried out as it is given, legal or not.
    pub open spec fn after(self, m: Move) -> InitialState {
        InitialState {
            state: grid_after(self.state, m),
            castle_rights: rights_after(self.castle_rights, m),
            active_color: self.active_color.opposite(),
            move_count: (self.move_count + 1) as usize,
            en_passant: en_passant_after(self.state, m),
        }
    }

    /// The position after a sequence of moves.
    pub open spec fn after_all(self, ms: Seq<Move>) -> InitialState
        decreases ms.len(),
    {
        if ms.len() == 0 {
            self
        } else {
            self.after_all(ms.drop_last()).after(ms.last())
        }
    }
}

impl BoardView {
    /// The board after a move has been made and recorded.
    pub open spec fn applied(self, m: Move) -> BoardView {
        BoardView { position: self.position.after(m), history: self.history.push(m) }
    }

    /// The moves that stay when the last one is taken back.
    pub open spec fn shortened(self) -> Seq<Move> {
        if self.history.len() == 0 {
            self.history
        } else {
            self.history.drop_last()
        }
    }

    /// The board after its last move has been taken back: the snapshot, with all moves
    /// but the last replayed on it.
    pub open spec fn undone(self, initial: InitialState) -> BoardView {
        BoardView { position: initial.after_all(self.shortened()), history: self.shortened() }
    }

    /// The position is the one that the recorded moves lead to from the snapshot.
    pub open spec fn replays_from(self, initial: InitialState) -> bool {
        self.position == initial.after_all(self.history)
    }
}

impl View for Board {
    type V = BoardView;

    open spec fn view(&self) -> BoardView {
        BoardView {
            position: InitialState {
                state: self.state,
                castle_rights: self.castle_rights,
                active_color: self.active_color,
                move_count: self.move_count,
                en_passant: self.en_passant,
            },
            history: self.history@,
        }
    }
}

/// The pair of signed coordinates names a square of the board.
pub fn on_board(rf: [i8; 2]) -> (b: bool)
    ensures
        b == (0 <= rf[0] < 8 && 0 <= rf[1] < 8),
{
    rf[0] >= 0 && rf[0] < 8 && rf[1] >= 0 && rf[1] < 8
}

impl Board {
    /// Carries out what a move does beyond its own two squares and returns the piece that
    /// arrives on the target square.
    pub fn check_for_side_effects(board: &mut [[Piece; 8]; 8], mov: &Move) -> (piece: Piece)
        requires
            mov.valid(),
        ensures
            piece == landing_piece(*old(board), *mov),
            *final(board) == side_effects(*old(board), *mov),
    {
        let piece = board[mov.from.rank as usize][mov.from.file as usize];
        if !(piece == Piece::WPawn || piece == Piece::BPawn || piece == Piece::WKing || piece
            == Piece::BKing) {
            return piece;
        }
        let target = board[mov.to.rank as usize][mov.to.file as usize];
        if piece == Piece::WPawn && mov.to.rank == 7 {
            return Piece::WQueen;
        }
        if piece == Piece::BPawn && mov.to.rank == 0 {
            return Piece::BQueen;
        }
        if piece == Piece::WPawn || piece == Piece::BPawn {
            if target == Piece::Empty && mov.from.file != mov.to.file {
                if piece == Piece::WPawn {
                    if mov.to.rank != 0 {
                        board[mov.to.rank as usize - 1][mov.to.file as usize] = Piece::Empty;
                    }
                } else {
                    if mov.to.rank != 7 {
                        board[mov.to.rank as usize + 1][mov.to.file as usize] = Piece::Empty;
                    }
                }
            }
            return piece;
        }
        if piece == Piece::WKing && mov.from.rank == 0 && mov.from.file == 4 {
            if mov.to.rank == 0 && mov.to.file == 6 {
                board[0][7] = Piece::Empty;
                board[0][5] = Piece::WRook;
            } else if mov.to.rank == 0 && mov.to.file == 2 {
                board[0][0] = Piece::Empty;
                board[0][3] = Piece::WRook;
            }
            return piece;
        }
        if piece == Piece::BKing && mov.from.rank == 7 && mov.from.file == 4 {
            if mov.to.rank == 7 && mov.to.file == 6 {
                board[7][7] = Piece::Empty;
                board[7][5] = Piece::BRook;
            } else if mov.to.rank == 7 && mov.to.file == 2 {
                board[7][0] = Piece::Empty;
                board[7][3] = Piece::BRook;
            }
        }
        piece
    }

    /// The board can take a move: a side is to move, and every recorded move is on the board.
    pub open spec fn wf(&self) -> bool {
        &&& self.active_color != Color::Neither
        &&& forall|i: int| 0 <= i < self.history@.len() ==> (#[trigger] self.history@[i]).valid()
    }

    /// Makes a move and records it. The move is not checked for legality.
    pub fn make_move(&mut self, mov: Move)
        requires
            mov.valid(),
            old(self).active_color != Color::Neither,
            old(self).move_count < usize::MAX,
        ensures
            final(self)@ == old(self)@.applied(mov),
            old(self).wf() ==> final(self).wf(),
            final(self).castle_rights & !old(self).castle_rights == 0,
    {
        self.make_move_push(mov, true);
    }

    /// The castling rights that go with a square.
    pub fn rights_of(home: Square) -> (rights: u8)
        ensures
            rights == rights_lost(home),
    {
        if home.rank == 0 && home.file == 4 {
            3
        } else if home.rank == 7 && home.file == 4 {
            12
        } else if home.rank == 0 && home.file == 0 {
            WQUEENSIDE
        } else if home.rank == 7 && home.file == 0 {
            BQUEENSIDE
        } else if home.rank == 0 && home.file == 7 {
            WKINGSIDE
        } else if home.rank == 7 && home.file == 7 {
            BKINGSIDE
        } else {
            0
        }
    }

    /// Makes a move, and records it if `push` is set. The move is not checked for legality.
    pub fn make_move_push(&mut self, mov: Move, push: bool)
        requires
            mov.valid(),
            old(self).active_color != Color::Neither,
            old(self).move_count < usize::MAX,
        ensures
            final(self)@.position == old(self)@.position.after(mov),
            final(self)@.history == (if push {
                old(self)@.history.push(mov)
            } else {
                old(self)@.history
            }),
            old(self).wf() ==> final(self).wf(),
            final(self).castle_rights & !old(self).castle_rights == 0,
    {
        let before = self.castle_rights;
        let left = Board::rights_of(mov.from);
        let reached = Board::rights_of(mov.to);
        let kept: u8 = before & !left & !reached;
        assert(kept & !before == 0) by (bit_vector)
            requires
                kept == before & !left & !reached,
        ;
        self.castle_rights = kept;

        if push {
            self.history.push(mov);
        }
        let mover = self.state[mov.from.rank as usize][mov.from.file as usize];
        let piece = Board::check_for_side_effects(&mut self.state, &mov);
        self.state[mov.to.rank as usize][mov.to.file as usize] = piece;
        self.state[mov.from.rank as usize][mov.from.file as usize] = Piece::Empty;
        if (mover == Piece::WPawn || mover == Piece::BPawn) && (mov.to.rank == mov.from.rank + 2
            || mov.from.rank == mov.to.rank + 2) {
            self.en_passant = mov.from.file;
        } else {
            self.en_passant = 8;
        }
        self.active_color = self.active_color.switch();
        self.move_count += 1;
    }

    /// The piece on a square.
    pub fn piece_at(&self, sq: Square) -> (p: Piece)
        requires
            sq.valid(),
        ensures
            p == at(self.state, sq),
    {
        self.state[sq.rank as usize][sq.file as usize]
    }

    /// Takes the last move back: the board returns to the snapshot, and all recorded moves
    /// but the last are made again on it.
    pub fn undo(&mut self, initial: &InitialState)
        requires
            forall|i: int|
                0 <= i < old(self).history@.len() ==> (#[trigger] old(self).history@[i]).valid(),
            old(self).history@.len() >= 2 ==> initial.active_color != Color::Neither,
            initial.move_count + old(self).history@.len() <= usize::MAX,
        ensures
            final(self)@ == old(self)@.undone(*initial),
            initial.active_color != Color::Neither ==> final(self).wf(),
    {
        self.history.pop();
        self.state = initial.state;
        self.castle_rights = initial.castle_rights;
        self.active_color = initial.active_color;
        self.move_count = initial.move_count;
        self.en_passant = initial.en_passant;

        let ghost moves = self.history@;
        let n = self.history.len();
        let mut i: usize = 0;
        while i < n
            invariant
                i <= n,
                n == moves.len(),
                self.history@ == moves,
                forall|j: int| 0 <= j < moves.len() ==> (#[trigger] moves[j]).valid(),
                self@.position == initial.after_all(moves.take(i as int)),
                self.move_count == initial.move_count + i,
                initial.move_count + n <= usize::MAX,
                n >= 1 ==> initial.active_color != Color::Neither,
            decreases n - i,
        {
            let mov = self.history[i];
            proof {
                lemma_active_alternates(*initial, moves.take(i as int));
                assert(moves.take(i + 1).drop_last() =~= moves.take(i as int));
            }
            self.make_move_push(mov, false);
            i += 1;
        }
        assert(moves.take(n as int) =~= moves);
        proof {
            if initial.active_color != Color::Neither {
                lemma_active_alternates(*initial, moves);
            }
        }
    }

    /// A copy of the position with an empty history.
    pub fn freeze(&self) -> (copy: Board)
        ensures
            copy@.position == self@.position,
            copy@.history == Seq::<Move>::empty(),
            self.active_color != Color::Neither ==> copy.wf(),
    {
        Board {
            state: self.state,
            history: Vec::new(),
            castle_rights: self.castle_rights,
            active_color: self.active_color,
            move_count: self.move_count,
            en_passant: self.en_passant,
        }
    }

    /// The position as a snapshot to return to.
    pub fn freeze_init(&self) -> (snapshot: InitialState)
        ensures
            snapshot == self@.position,
    {
        InitialState {
            state: self.state,
            castle_rights: self.castle_rights,
            active_color: self.active_color,
            move_count: self.move_count,
            en_passant: self.en_passant,
        }
    }
}

/// Moves hand the turn back and forth and never take it away.
pub proof fn lemma_active_alternates(initial: InitialState, ms: Seq<Move>)
    requires
        initial.active_color != Color::Neither,
    ensures
        initial.after_all(ms).active_color != Color::Neither,
    decreases ms.len(),
{
    if ms.len() > 0 {
        lemma_active_alternates(initial, ms.drop_last());
    }
}

/// The grid at the start of a game.
pub const START_GRID: [[Piece; 8]; 8] = [
    [
        Piece::WRook,
        Piece::WKnight,
        Piece::WBishop,
        Piece::WQueen,
        Piece::WKing,
        Piece::WBishop,
        Piece::WKnight,
        Piece::WRook,
    ],
    [
        Piece::WPawn,
        Piece::WPawn,
        Piece::WPawn,
        Piece::WPawn,
        Piece::WPawn,
        Piece::WPawn,
        Piece::WPawn,
        Piece::WPawn,
    ],
    [
        Piece::Empty,
        Piece::Empty,
        Piece::Empty,
        Piece::Empty,
        Piece::Empty,
        Piece::Empty,
        Piece::Empty,
        Piece::Empty,
    ],
    [
        Piece::Empty,
        Piece::Empty,
        Piece::Empty,
        Piece::Empty,
        Piece::Empty,
        Piece::Empty,
        Piece::Empty,
        Piece::Empty,
    ],
    [
        Piece::Empty,
        Piece::Empty,
        Piece::Empty,
        Piece::Empty,
        Piece::Empty,
        Piece::Empty,
        Piece::Empty,
        Piece::Empty,
    ],
    [
        Piece::Empty,
        Piece::Empty,
        Piece::Empty,
        Piece::Empty,
        Piece::Empty,
        Piece::Empty,
        Piece::Empty,
        Piece::Empty,
    ],
    [
        Piece::BPawn,
        Piece::BPawn,
        Piece::BPawn,
        Piece::BPawn,
        Piece::BPawn,
        Piece::BPawn,
        Piece::BPawn,
        Piece::BPawn,
    ],
    [
        Piece::BRook,
        Piece::BKnight,
        Piece::BBishop,
        Piece::BQueen,
        Piece::BKing,
        Piece::BBishop,
        Piece::BKnight,
        Piece::BRook,
    ],
];

/// The position from which a game starts: White to move, all castling rights, no capture
/// in passing open.
pub open spec fn start_position() -> InitialState {
    InitialState {
        state: START_GRID,
        castle_rights: 15,
        active_color: Color::White,
        move_count: 0,
        en_passant: 8,
    }
}

/// The starting position as a snapshot.
pub fn init_base() -> (snapshot: InitialState)
    ensures
        snapshot == start_position(),
{
    InitialState {
        state: START_GRID,
        castle_rights: 15,
        active_color: Color::White,
        move_count: 0,
        en_passant: 8,
    }
}

impl Default for Board {
    /// The board at the start of a game.
    fn default() -> (board: Board)
        ensures
            board@.position == start_position(),
            board@.history == Seq::<Move>::empty(),
            board.wf(),
    {
        Board {
            state: START_GRID,
            history: Vec::with_capacity(64),
            castle_rights: 15,
            active_color: Color::White,
            move_count: 0,
            en_passant: 8,
        }
    }
}

} // verus!
