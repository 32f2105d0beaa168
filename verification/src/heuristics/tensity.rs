//! Tension: which pieces stand to be taken, and what that is worth.

use vstd::prelude::*;
use crate::board::Grid;
use crate::heuristics::influence::{graded, Influences};
use crate::piece::{Color, Piece, PieceType};
use crate::sums::{
    cells_max, cells_sum, div_toward_zero, grid_max, grid_sum, quot, rows_max, rows_sum,
};

verus! {

/// What an attack on a piece amounts to.
#[derive(Copy, Clone, Debug, PartialEq, Eq, Structural)]
pub enum Attack {
    /// The piece is not attacked, or by too little to matter.
    NoAttack,
    /// The piece can be taken at the price of the piece that takes.
    Trade,
    /// The piece can be taken with gain.
    GainfulAttack,
}

impl Attack {
    /// One letter for the attack: `-`, `T` or `G`.
    pub fn symbol(&self) -> (c: char)
        ensures
            c == (match *self {
                Attack::NoAttack => '-',
                Attack::Trade => 'T',
                Attack::GainfulAttack => 'G',
            }),
    {
        match self {
            Attack::NoAttack => '-',
            Attack::Trade => 'T',
            Attack::GainfulAttack => 'G',
        }
    }
}

/// The greatest power of two that is not above `n`, 1 for 0.
pub open spec fn top_bit(n: nat) -> nat
    decreases n,
{
    if n <= 1 {
        1
    } else {
        2 * top_bit(n / 2)
    }
}

/// The greatest power of two not above a positive `n` lies between half of `n`,
/// exclusive, and `n`.
pub proof fn law_top_bit(n: nat)
    requires
        n >= 1,
    ensures
        top_bit(n) <= n < 2 * top_bit(n),
        exists|e: nat| top_bit(n) == vstd::arithmetic::power2::pow2(e),
    decreases n,
{
    if n <= 1 {
        vstd::arithmetic::power2::lemma2_to64();
    } else {
        law_top_bit(n / 2);
        let e = choose|e: nat| top_bit(n / 2) == vstd::arithmetic::power2::pow2(e);
        vstd::arithmetic::power2::lemma_pow2_unfold(e + 1);
    }
}

/// The greatest power of two that is not above `n`.
fn top_bit_of(n: u32) -> (b: u32)
    requires
        n >= 1,
    ensures
        b == top_bit(n as nat),
        b <= n,
    decreases n,
{
    if n <= 1 {
        1
    } else {
        2 * top_bit_of(n / 2)
    }
}

/// The graded influence of attackers without the cheapest of them: the number with its
/// highest bit taken away.
pub fn remove_cheapest_attacker(sminf: u32) -> (rest: u32)
    requires
        sminf >= 1,
    ensures
        rest == sminf - top_bit(sminf as nat),
{
    sminf - top_bit_of(sminf)
}

/// A signed 32-bit number read as an unsigned one: itself if it is not negative, else
/// greater by 2 to the 32.
pub open spec fn unsigned(x: int) -> int {
    if x >= 0 {
        x
    } else {
        x + 4294967296
    }
}

/// What an attack on a piece of graded influence `own` amounts to, given the graded
/// influence of its defenders and of its attackers. Both are meant without sign; a
/// negative one is read as an unsigned number. The attack is gainful if the cheapest
/// attacker is cheaper than the piece, or if the attackers without the cheapest still
/// match the defenders; it is a trade if the attackers together weigh as much as the
/// piece; else it is no attack.
pub open spec fn attack_on(own: int, defending: int, attacking: int) -> Attack {
    let cheapest = top_bit(unsigned(attacking) as nat) as int;
    if attacking == 0 {
        Attack::NoAttack
    } else if cheapest > own || unsigned(attacking) - cheapest >= unsigned(defending) {
        Attack::GainfulAttack
    } else if attacking >= own {
        Attack::Trade
    } else {
        Attack::NoAttack
    }
}

/// A signed number read as an unsigned one.
pub fn as_unsigned(x: i32) -> (u: u32)
    ensures
        u == unsigned(x as int),
{
    if x >= 0 {
        x as u32
    } else {
        let low: i32 = (x + 2147483647) + 1;
        low as u32 + 2147483648
    }
}

/// The size of the graded influence of a piece.
pub open spec fn graded_size(p: Piece) -> int {
    if graded(p) >= 0 {
        graded(p)
    } else {
        -graded(p)
    }
}

impl Piece {
    /// What an attack on the piece amounts to, the graded influence of its defenders and
    /// of its attackers given without sign.
    pub fn under_attack_e(&self, sminf_defending: i32, sminf_attacking: i32) -> (a: Attack)
        ensures
            a == attack_on(graded_size(*self), sminf_defending as int, sminf_attacking as int),
    {
        let own = self.sminf();
        let own_sminf_value: i32 = if own >= 0 {
            own
        } else {
            -own
        };
        if sminf_attacking == 0 {
            return Attack::NoAttack;
        }
        let attacking = as_unsigned(sminf_attacking);
        let without_cheapest_attacker = remove_cheapest_attacker(attacking);
        let cheapest_attacker_value = attacking - without_cheapest_attacker;
        if cheapest_attacker_value > own_sminf_value as u32 || without_cheapest_attacker
            >= as_unsigned(sminf_defending) {
            return Attack::GainfulAttack;
        }
        if sminf_attacking >= own_sminf_value {
            return Attack::Trade;
        }
        Attack::NoAttack
    }
}

/// Every influence of the grid has a size that fits: none is the least 32-bit number.
pub open spec fn has_sizes(infs: Influences) -> bool {
    forall|r: int, f: int| 0 <= r < 8 && 0 <= f < 8 ==> #[trigger] infs[r][f] > -2147483648
}

/// The size of a number.
pub open spec fn size_of(x: int) -> int {
    if x >= 0 {
        x
    } else {
        -x
    }
}

/// The attack on the piece on a square under the graded influences of the two sides,
/// Black's taken by its size; no attack on an empty square.
pub open spec fn attack_at(g: Grid, winfs: Influences, binfs: Influences, r: int, f: int) -> Attack {
    let p = g[r][f];
    match p.color_of() {
        Color::Neither => Attack::NoAttack,
        Color::White => attack_on(graded_size(p), winfs[r][f] as int, size_of(binfs[r][f] as int)),
        Color::Black => attack_on(graded_size(p), size_of(binfs[r][f] as int), winfs[r][f] as int),
    }
}

/// 1 if the piece on a square is of the given colour and under the given kind of
/// attack, else 0.
pub open spec fn tension_term(g: Grid, winfs: Influences, binfs: Influences, color: Color, kind: Attack) -> spec_fn(
    int,
    int,
) -> int {
    |r: int, f: int|
        if g[r][f].color_of() == color && attack_at(g, winfs, binfs, r, f) == kind {
            1int
        } else {
            0int
        }
}

/// The number of pieces of a colour that are under the given kind of attack.
pub open spec fn tension_count(g: Grid, winfs: Influences, binfs: Influences, color: Color, kind: Attack) -> int {
    grid_sum(tension_term(g, winfs, binfs, color, kind))
}

/// The tension against a side: a third of the trades open against it, rounded towards
/// zero, and the number of its pieces that can be taken with gain. The four numbers are
/// the trades and gainful attacks against White, then those against Black.
pub open spec fn tension_against(vals: [i32; 4], color: Color) -> int {
    match color {
        Color::Neither => 0,
        Color::White => quot(vals[0] as int, 3) + vals[1],
        Color::Black => quot(vals[2] as int, 3) + vals[3],
    }
}

/// The tension against a side.
pub fn tension_against_color(vals: &[i32; 4], color: Color) -> (v: i32)
    requires
        forall|i: int| 0 <= i < 4 ==> -1000000000 <= #[trigger] vals[i] <= 1000000000,
    ensures
        v == tension_against(*vals, color),
{
    match color {
        Color::Neither => 0,
        Color::White => div_toward_zero(vals[0], 3) + vals[1],
        Color::Black => div_toward_zero(vals[2], 3) + vals[3],
    }
}

/// The tension against both sides together.
pub fn total_tension(vals: &[i32; 4]) -> (v: i32)
    requires
        forall|i: int| 0 <= i < 4 ==> -500000000 <= #[trigger] vals[i] <= 500000000,
    ensures
        v == tension_against(*vals, Color::White) + tension_against(*vals, Color::Black),
{
    tension_against_color(vals, Color::White) + tension_against_color(vals, Color::Black)
}

/// The attack on the piece on one square.
fn attack_here(board: &[[Piece; 8]; 8], winfs: &[[i32; 8]; 8], binfs: &[[i32; 8]; 8], r: usize, f: usize) -> (a: Attack)
    requires
        r < 8,
        f < 8,
        has_sizes(*binfs),
    ensures
        a == attack_at(*board, *winfs, *binfs, r as int, f as int),
{
    let piece = board[r][f];
    let black: i32 = binfs[r][f];
    let black_size: i32 = if black >= 0 {
        black
    } else {
        -black
    };
    match piece.color() {
        Color::Neither => Attack::NoAttack,
        Color::White => piece.under_attack_e(winfs[r][f], black_size),
        Color::Black => piece.under_attack_e(black_size, winfs[r][f]),
    }
}

/// The number of trades open against White's pieces, the number of White's pieces that
/// can be taken with gain, and the same two numbers for Black.
pub fn tensions(board: &[[Piece; 8]; 8], winfs: &[[i32; 8]; 8], binfs: &[[i32; 8]; 8]) -> (num: [i32; 4])
    requires
        has_sizes(*binfs),
    ensures
        num[0] == tension_count(*board, *winfs, *binfs, Color::White, Attack::Trade),
        num[1] == tension_count(*board, *winfs, *binfs, Color::White, Attack::GainfulAttack),
        num[2] == tension_count(*board, *winfs, *binfs, Color::Black, Attack::Trade),
        num[3] == tension_count(*board, *winfs, *binfs, Color::Black, Attack::GainfulAttack),
        forall|i: int| 0 <= i < 4 ==> 0 <= #[trigger] num[i] <= 64,
{
    let ghost t0 = tension_term(*board, *winfs, *binfs, Color::White, Attack::Trade);
    let ghost t1 = tension_term(*board, *winfs, *binfs, Color::White, Attack::GainfulAttack);
    let ghost t2 = tension_term(*board, *winfs, *binfs, Color::Black, Attack::Trade);
    let ghost t3 = tension_term(*board, *winfs, *binfs, Color::Black, Attack::GainfulAttack);
    let mut n0: i32 = 0;
    let mut n1: i32 = 0;
    let mut n2: i32 = 0;
    let mut n3: i32 = 0;
    let mut r: usize = 0;
    while r < 8
        invariant
            r <= 8,
            has_sizes(*binfs),
            t0 == tension_term(*board, *winfs, *binfs, Color::White, Attack::Trade),
            t1 == tension_term(*board, *winfs, *binfs, Color::White, Attack::GainfulAttack),
            t2 == tension_term(*board, *winfs, *binfs, Color::Black, Attack::Trade),
            t3 == tension_term(*board, *winfs, *binfs, Color::Black, Attack::GainfulAttack),
            n0 == rows_sum(t0, r as int),
            n1 == rows_sum(t1, r as int),
            n2 == rows_sum(t2, r as int),
            n3 == rows_sum(t3, r as int),
            0 <= n0 <= 8 * r,
            0 <= n1 <= 8 * r,
            0 <= n2 <= 8 * r,
            0 <= n3 <= 8 * r,
        decreases 8 - r,
    {
        let mut f: usize = 0;
        while f < 8
            invariant
                r < 8,
                f <= 8,
                has_sizes(*binfs),
                t0 == tension_term(*board, *winfs, *binfs, Color::White, Attack::Trade),
                t1 == tension_term(*board, *winfs, *binfs, Color::White, Attack::GainfulAttack),
                t2 == tension_term(*board, *winfs, *binfs, Color::Black, Attack::Trade),
                t3 == tension_term(*board, *winfs, *binfs, Color::Black, Attack::GainfulAttack),
                n0 == rows_sum(t0, r as int) + cells_sum(t0, r as int, f as int),
                n1 == rows_sum(t1, r as int) + cells_sum(t1, r as int, f as int),
                n2 == rows_sum(t2, r as int) + cells_sum(t2, r as int, f as int),
                n3 == rows_sum(t3, r as int) + cells_sum(t3, r as int, f as int),
                0 <= n0 <= 8 * r + f,
                0 <= n1 <= 8 * r + f,
                0 <= n2 <= 8 * r + f,
                0 <= n3 <= 8 * r + f,
            decreases 8 - f,
        {
            let piece = board[r][f];
            let attack = attack_here(board, winfs, binfs, r, f);
            match attack {
                Attack::NoAttack => {},
                Attack::Trade => {
                    if piece.color() == Color::White {
                        n0 += 1;
                    } else {
                        n2 += 1;
                    }
                },
                Attack::GainfulAttack => {
                    if piece.color() == Color::White {
                        n1 += 1;
                    } else {
                        n3 += 1;
                    }
                },
            }
            f += 1;
        }
        r += 1;
    }
    [n0, n1, n2, n3]
}

/// The attack on every piece, square by square.
pub fn tension_board(board: &[[Piece; 8]; 8], winfs: &[[i32; 8]; 8], binfs: &[[i32; 8]; 8]) -> (b: [[Attack; 8]; 8])
    requires
        has_sizes(*binfs),
    ensures
        forall|r: int, f: int|
            0 <= r < 8 && 0 <= f < 8 ==> #[trigger] b[r][f] == attack_at(*board, *winfs, *binfs, r, f),
{
    let mut b: [[Attack; 8]; 8] = [[Attack::NoAttack;8];8];
    let mut r: usize = 0;
    while r < 8
        invariant
            r <= 8,
            has_sizes(*binfs),
            forall|i: int, j: int|
                0 <= i < r && 0 <= j < 8 ==> #[trigger] b[i][j] == attack_at(*board, *winfs, *binfs, i, j),
        decreases 8 - r,
    {
        let mut f: usize = 0;
        while f < 8
            invariant
                r < 8,
                f <= 8,
                has_sizes(*binfs),
                forall|i: int, j: int|
                    0 <= i < r && 0 <= j < 8 ==> #[trigger] b[i][j] == attack_at(
                        *board,
                        *winfs,
                        *binfs,
                        i,
                        j,
                    ),
                forall|j: int|
                    0 <= j < f ==> #[trigger] b[r as int][j] == attack_at(
                        *board,
                        *winfs,
                        *binfs,
                        r as int,
                        j,
                    ),
            decreases 8 - f,
        {
            let a = attack_here(board, winfs, binfs, r, f);
            b[r][f] = a;
            f += 1;
        }
        r += 1;
    }
    b
}

/// The worth of the piece on a square if it is of the given colour, is no king and can be
/// taken with gain, else 0.
pub open spec fn threat_term(g: Grid, threats: [[Attack; 8]; 8], color: Color) -> spec_fn(int, int) -> int {
    |r: int, f: int|
        if threats[r][f] == Attack::GainfulAttack && g[r][f].color_of() == color && color
            != Color::Neither && g[r][f].type_of() != PieceType::King {
            g[r][f].value_on_rank(r)
        } else {
            0
        }
}

/// The worth of the pieces of a colour that can be taken with gain, kings left out.
pub open spec fn threatened(g: Grid, threats: [[Attack; 8]; 8], color: Color) -> int {
    grid_sum(threat_term(g, threats, color))
}

/// The worth of the dearest piece of a colour that can be taken with gain, 0 if there is
/// none.
pub open spec fn dearest_threatened(g: Grid, threats: [[Attack; 8]; 8], color: Color) -> int {
    grid_max(threat_term(g, threats, color))
}

/// What the threats on the board are worth with the given side to move: the worth of
/// Black's pieces that can be taken with gain less that of White's, where the side to
/// move leaves its dearest such piece out, for it can save one piece. Nothing if no side
/// is to move.
pub open spec fn threat_score(g: Grid, threats: [[Attack; 8]; 8], to_move: Color) -> int {
    match to_move {
        Color::Neither => 0,
        Color::White => threatened(g, threats, Color::Black) - (threatened(g, threats, Color::White)
            - dearest_threatened(g, threats, Color::White)),
        Color::Black => (threatened(g, threats, Color::Black) - dearest_threatened(
            g,
            threats,
            Color::Black,
        )) - threatened(g, threats, Color::White),
    }
}

/// What the threats on the board are worth with the given side to move, for White and
/// against Black.
pub fn threat_value(board: &[[Piece; 8]; 8], threats: [[Attack; 8]; 8], to_move: Color) -> (v: i32)
    ensures
        v == threat_score(*board, threats, to_move),
        -12928000 <= v <= 12928000,
{
    let ghost w = threat_term(*board, threats, Color::White);
    let ghost b = threat_term(*board, threats, Color::Black);
    let mut w_sum: i32 = 0;
    let mut b_sum: i32 = 0;
    let mut w_max: i32 = 0;
    let mut b_max: i32 = 0;
    let mut r: usize = 0;
    while r < 8
        invariant
            r <= 8,
            w == threat_term(*board, threats, Color::White),
            b == threat_term(*board, threats, Color::Black),
            w_sum == rows_sum(w, r as int),
            b_sum == rows_sum(b, r as int),
            w_max == rows_max(w, r as int),
            b_max == rows_max(b, r as int),
            0 <= w_max <= 202000,
            0 <= b_max <= 202000,
            w_max <= w_sum <= 1616000 * r,
            b_max <= b_sum <= 1616000 * r,
        decreases 8 - r,
    {
        let mut f: usize = 0;
        let mut w_row: i32 = 0;
        let mut b_row: i32 = 0;
        let ghost w_before = w_sum;
        let ghost b_before = b_sum;
        while f < 8
            invariant
                r < 8,
                f <= 8,
                w == threat_term(*board, threats, Color::White),
                b == threat_term(*board, threats, Color::Black),
                w_sum == rows_sum(w, r as int) + cells_sum(w, r as int, f as int),
                b_sum == rows_sum(b, r as int) + cells_sum(b, r as int, f as int),
                w_before == rows_sum(w, r as int),
                b_before == rows_sum(b, r as int),
                w_row == cells_max(w, r as int, f as int),
                b_row == cells_max(b, r as int, f as int),
                0 <= w_row <= 202000,
                0 <= b_row <= 202000,
                w_before + w_row <= w_sum <= 1616000 * r + 202000 * f,
                b_before + b_row <= b_sum <= 1616000 * r + 202000 * f,
                0 <= w_before,
                0 <= b_before,
            decreases 8 - f,
        {
            if threats[r][f] == Attack::GainfulAttack {
                let piece = board[r][f];
                if piece.piece_type() != PieceType::King {
                    let worth = piece.material_eval(r as u8, f as u8);
                    match piece.color() {
                        Color::Neither => {},
                        Color::White => {
                            w_sum += worth;
                            if worth > w_row {
                                w_row = worth;
                            }
                        },
                        Color::Black => {
                            b_sum += worth;
                            if worth > b_row {
                                b_row = worth;
                            }
                        },
                    }
                }
            }
            f += 1;
        }
        if w_row > w_max {
            w_max = w_row;
        }
        if b_row > b_max {
            b_max = b_row;
        }
        r += 1;
    }
    match to_move {
        Color::Neither => 0,
        Color::White => b_sum - (w_sum - w_max),
        Color::Black => (b_sum - b_max) - w_sum,
    }
}

} // verus!
