//! Moves, squares and the board as text.

use vstd::prelude::*;
use crate::board::{Board, Grid, Move, Square};

verus! {

/// The number of the file that a letter names: `a` to `j`, in either case, for 0 to 9.
pub open spec fn file_index(c: char) -> Option<int> {
    if c == 'a' || c == 'A' {
        Some(0)
    } else if c == 'b' || c == 'B' {
        Some(1)
    } else if c == 'c' || c == 'C' {
        Some(2)
    } else if c == 'd' || c == 'D' {
        Some(3)
    } else if c == 'e' || c == 'E' {
        Some(4)
    } else if c == 'f' || c == 'F' {
        Some(5)
    } else if c == 'g' || c == 'G' {
        Some(6)
    } else if c == 'h' || c == 'H' {
        Some(7)
    } else if c == 'i' || c == 'I' {
        Some(8)
    } else if c == 'j' || c == 'J' {
        Some(9)
    } else {
        None
    }
}

/// The number of the rank that a digit names: `1` to `9` for 0 to 8.
pub open spec fn rank_index(c: char) -> Option<int> {
    if c == '1' {
        Some(0)
    } else if c == '2' {
        Some(1)
    } else if c == '3' {
        Some(2)
    } else if c == '4' {
        Some(3)
    } else if c == '5' {
        Some(4)
    } else if c == '6' {
        Some(5)
    } else if c == '7' {
        Some(6)
    } else if c == '8' {
        Some(7)
    } else if c == '9' {
        Some(8)
    } else {
        None
    }
}

/// The text names a move: a file letter and a rank digit for the source square, any one
/// character, and letter and digit for the target square; what follows is not read.
pub open spec fn names_move(s: Seq<char>) -> bool {
    &&& s.len() >= 5
    &&& file_index(s[0]) is Some
    &&& rank_index(s[1]) is Some
    &&& file_index(s[3]) is Some
    &&& rank_index(s[4]) is Some
}

/// The move that a text names.
pub open spec fn move_named(s: Seq<char>) -> Move {
    Move {
        from: Square { rank: rank_index(s[1]).unwrap() as u8, file: file_index(s[0]).unwrap() as u8 },
        to: Square { rank: rank_index(s[4]).unwrap() as u8, file: file_index(s[3]).unwrap() as u8 },
    }
}

/// The letter is one of `a` to `h`.
pub open spec fn is_a_h(c: char) -> bool {
    c == 'a' || c == 'b' || c == 'c' || c == 'd' || c == 'e' || c == 'f' || c == 'g' || c == 'h'
}

/// The digit is one of `1` to `8`.
pub open spec fn is_one_eight(c: char) -> bool {
    c == '1' || c == '2' || c == '3' || c == '4' || c == '5' || c == '6' || c == '7' || c == '8'
}

/// The text is the word `ai`, or names a move between squares of the board in small
/// letters.
pub open spec fn well_formed(s: Seq<char>) -> bool {
    ||| s == seq!['a', 'i']
    ||| s.len() >= 5 && is_a_h(s[0]) && is_one_eight(s[1]) && is_a_h(s[3]) && is_one_eight(s[4])
}

/// A well-formed text other than `ai` names a move, and the move lies on the board.
pub proof fn law_well_formed_text_names_a_move(s: Seq<char>)
    requires
        well_formed(s),
        s != seq!['a', 'i'],
    ensures
        names_move(s),
        move_named(s).valid(),
{
}

/// The file that a letter names.
fn file_of(c: char) -> (f: Option<u8>)
    ensures
        f is Some == file_index(c) is Some,
        f is Some ==> f.unwrap() == file_index(c).unwrap(),
{
    if c == 'a' || c == 'A' {
        Some(0)
    } else if c == 'b' || c == 'B' {
        Some(1)
    } else if c == 'c' || c == 'C' {
        Some(2)
    } else if c == 'd' || c == 'D' {
        Some(3)
    } else if c == 'e' || c == 'E' {
        Some(4)
    } else if c == 'f' || c == 'F' {
        Some(5)
    } else if c == 'g' || c == 'G' {
        Some(6)
    } else if c == 'h' || c == 'H' {
        Some(7)
    } else if c == 'i' || c == 'I' {
        Some(8)
    } else if c == 'j' || c == 'J' {
        Some(9)
    } else {
        None
    }
}

/// The rank that a digit names.
fn rank_of(c: char) -> (r: Option<u8>)
    ensures
        r is Some == rank_index(c) is Some,
        r is Some ==> r.unwrap() == rank_index(c).unwrap(),
{
    if c == '1' {
        Some(0)
    } else if c == '2' {
        Some(1)
    } else if c == '3' {
        Some(2)
    } else if c == '4' {
        Some(3)
    } else if c == '5' {
        Some(4)
    } else if c == '6' {
        Some(5)
    } else if c == '7' {
        Some(6)
    } else if c == '8' {
        Some(7)
    } else if c == '9' {
        Some(8)
    } else {
        None
    }
}

/// The move that a text such as `e2-e4` names.
pub fn parse_move(str: &String) -> (mov: Move)
    requires
        names_move(str@),
    ensures
        mov == move_named(str@),
{
    let text = str.as_str();
    let from = Square {
        rank: rank_of(text.get_char(1)).unwrap(),
        file: file_of(text.get_char(0)).unwrap(),
    };
    let to = Square {
        rank: rank_of(text.get_char(4)).unwrap(),
        file: file_of(text.get_char(3)).unwrap(),
    };
    Move { from, to }
}

/// The move that a text names, if it names one.
pub fn try_parse_move(str: &String) -> (mov: Option<Move>)
    ensures
        mov is Some == names_move(str@),
        mov is Some ==> mov.unwrap() == move_named(str@),
{
    let text = str.as_str();
    if text.unicode_len() < 5 {
        return None;
    }
    if file_of(text.get_char(0)).is_some() && rank_of(text.get_char(1)).is_some() && file_of(
        text.get_char(3),
    ).is_some() && rank_of(text.get_char(4)).is_some() {
        Some(parse_move(str))
    } else {
        None
    }
}

/// Whether the letter is one of `a` to `h`.
pub fn a_h(c: char) -> (b: bool)
    ensures
        b == is_a_h(c),
{
    c == 'a' || c == 'b' || c == 'c' || c == 'd' || c == 'e' || c == 'f' || c == 'g' || c == 'h'
}

/// Whether the digit is one of `1` to `8`.
pub fn one_eight(c: char) -> (b: bool)
    ensures
        b == is_one_eight(c),
{
    c == '1' || c == '2' || c == '3' || c == '4' || c == '5' || c == '6' || c == '7' || c == '8'
}

/// Whether the text is the word `ai` or names a move between squares of the board.
pub fn check_well_formed_move(s: &str) -> (b: bool)
    ensures
        b == well_formed(s@),
{
    let n = s.unicode_len();
    if n == 2 && s.get_char(0) == 'a' && s.get_char(1) == 'i' {
        assert(s@ =~= seq!['a', 'i']);
        return true;
    }
    if n < 5 {
        return false;
    }
    a_h(s.get_char(0)) && one_eight(s.get_char(1)) && a_h(s.get_char(3)) && one_eight(s.get_char(4))
}

/// The letter of a file: `a` for 0 up to `j` for 9.
pub open spec fn file_letter(f: int) -> char {
    seq!['a', 'b', 'c', 'd', 'e', 'f', 'g', 'h', 'i', 'j'][f]
}

/// The digit of a rank: `1` for 0 up to `9` for 8.
pub open spec fn rank_digit(r: int) -> char {
    seq!['1', '2', '3', '4', '5', '6', '7', '8', '9'][r]
}

/// The letter of a file as text.
fn file_text(f: u8) -> (s: &'static str)
    requires
        f <= 9,
    ensures
        s@ == seq![file_letter(f as int)],
{
    proof {
        reveal_strlit("a");
        reveal_strlit("b");
        reveal_strlit("c");
        reveal_strlit("d");
        reveal_strlit("e");
        reveal_strlit("f");
        reveal_strlit("g");
        reveal_strlit("h");
        reveal_strlit("i");
        reveal_strlit("j");
    }
    let s = if f == 0 {
        "a"
    } else if f == 1 {
        "b"
    } else if f == 2 {
        "c"
    } else if f == 3 {
        "d"
    } else if f == 4 {
        "e"
    } else if f == 5 {
        "f"
    } else if f == 6 {
        "g"
    } else if f == 7 {
        "h"
    } else if f == 8 {
        "i"
    } else {
        "j"
    };
    s
}

/// The digit of a rank as text.
fn rank_text(r: u8) -> (s: &'static str)
    requires
        r <= 8,
    ensures
        s@ == seq![rank_digit(r as int)],
{
    proof {
        reveal_strlit("1");
        reveal_strlit("2");
        reveal_strlit("3");
        reveal_strlit("4");
        reveal_strlit("5");
        reveal_strlit("6");
        reveal_strlit("7");
        reveal_strlit("8");
        reveal_strlit("9");
    }
    let s = if r == 0 {
        "1"
    } else if r == 1 {
        "2"
    } else if r == 2 {
        "3"
    } else if r == 3 {
        "4"
    } else if r == 4 {
        "5"
    } else if r == 5 {
        "6"
    } else if r == 6 {
        "7"
    } else if r == 7 {
        "8"
    } else {
        "9"
    };
    s
}

/// The name of a square: the letter of its file and the digit of its rank.
pub fn square_to_string(sq: Square) -> (s: String)
    requires
        sq.rank <= 8,
        sq.file <= 9,
    ensures
        s@ == seq![file_letter(sq.file as int), rank_digit(sq.rank as int)],
{
    let mut s = String::from_str(file_text(sq.file));
    s.append(rank_text(sq.rank));
    s
}

/// The first `n` squares of a rank as text.
pub open spec fn rank_symbols(g: Grid, r: int, n: int) -> Seq<char>
    decreases n,
{
    if n <= 0 {
        Seq::empty()
    } else {
        rank_symbols(g, r, n - 1).push(g[r][n - 1].symbol_of())
    }
}

/// One line of the board: the digit of the rank, the figurines of its eight squares, and
/// a line break.
pub open spec fn rank_line(g: Grid, r: int) -> Seq<char> {
    seq![rank_digit(r)] + rank_symbols(g, r, 8) + seq!['\n']
}

/// The lines of the ranks from the eighth down to the one above rank `r`.
pub open spec fn lines_above(g: Grid, r: int) -> Seq<char>
    decreases 8 - r,
{
    if r >= 8 {
        Seq::empty()
    } else {
        lines_above(g, r + 1) + rank_line(g, r)
    }
}

/// The board as text: the eight ranks from the eighth down, each on a line of its own,
/// and the letters of the files below them.
pub open spec fn board_text(g: Grid) -> Seq<char> {
    lines_above(g, 0) + seq![' ', 'a', 'b', 'c', 'd', 'e', 'f', 'g', 'h']
}

impl Board {
    /// The board as text, White's side at the bottom.
    pub fn as_string(&self) -> (s: String)
        ensures
            s@ == board_text(self.state),
    {
        let mut s = String::new();
        let mut left: usize = 8;
        while left > 0
            invariant
                left <= 8,
                s@ == lines_above(self.state, left as int),
            decreases left,
        {
            let r: usize = left - 1;
            let ghost before = s@;
            s.append(rank_text(r as u8));
            let mut f: usize = 0;
            while f < 8
                invariant
                    r < 8,
                    f <= 8,
                    s@ == before + seq![rank_digit(r as int)] + rank_symbols(self.state, r as int, f as int),
                decreases 8 - f,
            {
                s.append(self.state[r][f].char());
                assert(s@ =~= before + seq![rank_digit(r as int)] + rank_symbols(
                    self.state,
                    r as int,
                    f + 1,
                ));
                f += 1;
            }
            proof {
                reveal_strlit("\n");
            }
            s.append("\n");
            left = r;
        }
        proof {
            reveal_strlit(" abcdefgh");
        }
        s.append(" abcdefgh");
        s
    }
}

} // verus!
