//! Search by plain minimax on a budget of depth that captures use up more slowly than
//! other moves, so that lines of captures are followed further.

use vstd::prelude::*;
use crate::board::{Board, Grid, InitialState, Move, Square};
use crate::enumerate::{
    all_moves_by_target, legal_capture_for, legal_captures, legal_for, legal_moves,
    legal_noncapture_for, legal_noncaptures, lemma_all_moves_complete,
};
use crate::legality::legal;
use crate::heuristics::influence::{
    influence_on, influence_term, influences_fit, lemma_piece_gives_once, pressure, small_influence,
    weight, SmallInfluences, Weighting,
};
use crate::piece::{Color, Piece, PieceType};
use crate::seqs::lemma_filter_membership;
use crate::attack::in_check;
use crate::suggestions::abq_sugg::{better_for, greater, lesser};
use crate::sums::{cells_sum, grid_sum, lemma_grid_sum_ext, lemma_rows_sum_bounds, rows_sum};

verus! {

/// The value of a position that White has won, in this search.
pub const WHITE_WIN: i16 = 32767;

/// The value of a position that Black has won, in this search.
pub const BLACK_WIN: i16 = -32768;

/// The value of a position in which the side to move has no legal move: lost for the
/// side in check, drawn if neither is.
pub open spec fn terminal_value(g: Grid) -> int {
    if in_check(g, Color::White) {
        BLACK_WIN as int
    } else if in_check(g, Color::Black) {
        WHITE_WIN as int
    } else {
        0
    }
}

impl Piece {
    /// The worth of a piece in whole pawns: king 60, queen 10, rook 5, bishop and knight
    /// 3, pawn 1, and 3 for a pawn one step from its last rank.
    pub open spec fn rough_worth(&self, rank: int) -> int {
        match self.type_of() {
            PieceType::Empty => 0,
            PieceType::King => 60,
            PieceType::Queen => 10,
            PieceType::Rook => 5,
            PieceType::Bishop => 3,
            PieceType::Knight => 3,
            PieceType::Pawn => if self.own_rank(rank) == 6 {
                3
            } else {
                1
            },
        }
    }

    /// The worth of a piece in whole pawns.
    pub fn rough_value(&self, rank: u8) -> (v: i16)
        ensures
            v == self.rough_worth(rank as int),
            0 <= v <= 60,
    {
        match self {
            Piece::Empty => 0,
            Piece::WKing => 60,
            Piece::WQueen => 10,
            Piece::WRook => 5,
            Piece::WBishop => 3,
            Piece::WKnight => 3,
            Piece::WPawn => match rank {
                6 => 3,
                _ => 1,
            },
            Piece::BKing => 60,
            Piece::BQueen => 10,
            Piece::BRook => 5,
            Piece::BBishop => 3,
            Piece::BKnight => 3,
            Piece::BPawn => match rank {
                1 => 3,
                _ => 1,
            },
        }
    }
}

impl Color {
    /// The sign of a side in signed scores: 1 for White, -1 for Black.
    pub fn inf(&self) -> (v: i8)
        ensures
            v == self.signed(1),
    {
        match self {
            Color::Neither => 0,
            Color::White => 1,
            Color::Black => -1,
        }
    }
}

/// The worth in whole pawns of the piece on a square, for White and against Black.
pub open spec fn rough_material_term(g: Grid) -> spec_fn(int, int) -> int {
    |r: int, f: int| g[r][f].color_of().signed(g[r][f].rough_worth(r))
}

/// White's material less Black's, in whole pawns.
pub open spec fn rough_material(g: Grid) -> int {
    grid_sum(rough_material_term(g))
}

/// What the influence on a square adds to the score: the influence itself on an empty
/// square, the pressure on the piece on an occupied one, and the influence once more on
/// the four squares of the centre.
pub open spec fn unit_pressure_term(g: Grid, infs: SmallInfluences) -> spec_fn(int, int) -> int {
    |r: int, f: int|
        {
            let inf = infs[r][f] as int;
            let c = g[r][f].color_of();
            (if c == Color::Neither {
                inf
            } else {
                pressure(c, inf)
            }) + (if 3 <= r <= 4 && 3 <= f <= 4 {
                inf
            } else {
                0
            })
        }
}

/// The influence score of a position under the given influences.
pub open spec fn unit_influence_score(g: Grid, infs: SmallInfluences) -> int {
    grid_sum(unit_pressure_term(g, infs))
}

/// What the influence on a square adds to the score of a position, every piece weighed
/// as 1.
pub open spec fn rough_pressure_term(g: Grid) -> spec_fn(int, int) -> int {
    |r: int, f: int|
        {
            let inf = influence_on(g, Square { rank: r as u8, file: f as u8 }, Weighting::Unit, Color::Neither);
            let c = g[r][f].color_of();
            (if c == Color::Neither {
                inf
            } else {
                pressure(c, inf)
            }) + (if 3 <= r <= 4 && 3 <= f <= 4 {
                inf
            } else {
                0
            })
        }
}

/// The score of a position by material in whole pawns and by influence: a hundred times
/// the material and the influence score.
pub open spec fn rough_evaluation(p: InitialState) -> int {
    100 * rough_material(p.state) + grid_sum(rough_pressure_term(p.state))
}

/// The influence on a square, every piece weighed as 1, is at most 64 in size: no piece
/// bears on a square more than once.
pub proof fn lemma_unit_influence_bounds(g: Grid, t: Square)
    ensures
        -64 <= influence_on(g, t, Weighting::Unit, Color::Neither) <= 64,
{
    let term = influence_term(g, t, Weighting::Unit, Color::Neither);
    assert forall|i: int, j: int| 0 <= i < 8 && 0 <= j < 8 implies -1 <= #[trigger] term(i, j) <= 1 by {
        lemma_piece_gives_once(
            g,
            Square { rank: i as u8, file: j as u8 },
            t,
            false,
            weight(g[i][j], Weighting::Unit),
            1,
        );
    }
    lemma_rows_sum_bounds(term, 8, -1, 1);
}

/// With every piece weighed as 1, the influence on every square fits a small number.
pub proof fn lemma_unit_influences_fit(g: Grid)
    ensures
        influences_fit(g, Weighting::Unit),
{
    assert forall|t: Square| t.valid() implies -128 <= #[trigger] influence_on(
        g,
        t,
        Weighting::Unit,
        Color::Neither,
    ) <= 127 by {
        lemma_unit_influence_bounds(g, t);
    }
}

/// Where no influence of the grid is above 102 in size, the influence score fits the
/// 16-bit numbers in which this search counts.
pub proof fn lemma_unit_influence_score_fits(g: Grid, infs: SmallInfluences)
    requires
        forall|r: int, f: int| 0 <= r < 8 && 0 <= f < 8 ==> -102 <= #[trigger] infs[r][f] <= 102,
    ensures
        BLACK_WIN <= unit_influence_score(g, infs) <= WHITE_WIN,
{
    let t = unit_pressure_term(g, infs);
    assert forall|i: int, j: int| 0 <= i < 8 && 0 <= j < 8 implies -510 <= #[trigger] t(i, j) <= 510 by {
        assert(-102 <= infs[i][j] <= 102);
    }
    lemma_rows_sum_bounds(t, 8, -510, 510);
}

/// The rough score of the position fits the 16-bit numbers in which this search counts.
pub open spec fn rough_fits(p: InitialState) -> bool {
    BLACK_WIN <= rough_evaluation(p) <= WHITE_WIN
}

/// Every rough score that the search of the move `m` on a budget of `depth` comes to
/// fits the 16-bit numbers in which this search counts.
pub open spec fn budget_fits(p: InitialState, m: Move, color: Color, depth: nat) -> bool
    decreases depth, 1nat, 0nat,
{
    let q = p.after(m);
    let other = color.opposite();
    let captures = legal_captures(q, other);
    let rest = legal_noncaptures(q, other);
    if captures.len() == 0 && rest.len() == 0 {
        true
    } else if depth < 10 {
        rough_fits(q)
    } else {
        &&& all_fit(q, captures, 0, other, depth, (depth - 3) as nat)
        &&& all_fit(q, rest, 0, other, depth, (depth - 10) as nat)
    }
}

/// Every rough score that the search of the moves from the `i`-th on comes to, each
/// searched on the budget `left`, which is below `depth`, fits.
pub open spec fn all_fit(q: InitialState, moves: Seq<Move>, i: int, mover: Color, depth: nat, left: nat) -> bool
    decreases depth, 0nat, moves.len() - i,
{
    if left >= depth || i < 0 || i >= moves.len() {
        true
    } else {
        budget_fits(q, moves[i], mover, left) && all_fit(q, moves, i + 1, mover, depth, left)
    }
}

/// Every rough score that the search for the side's move on a budget of `depth` comes
/// to fits.
pub open spec fn search_fits(p: InitialState, color: Color, depth: nat) -> bool {
    forall|i: int|
        0 <= i < legal_moves(p, color).len() ==> #[trigger] budget_fits(
            p,
            legal_moves(p, color)[i],
            color,
            depth,
        )
}

/// The value, for the side `color` that makes it, of the move `m` in the position `p`,
/// searched on a budget of `depth`: the value of the position it leads to if the other
/// side has no move there or the budget is below 10, else the best, for the other side,
/// of the values of its replies, a capture searched on a budget 3 smaller and any other
/// move on one 10 smaller.
pub open spec fn budget_value(p: InitialState, m: Move, color: Color, depth: nat) -> int
    decreases depth, 1nat, 0nat,
{
    let q = p.after(m);
    let other = color.opposite();
    let captures = legal_captures(q, other);
    let rest = legal_noncaptures(q, other);
    if captures.len() == 0 && rest.len() == 0 {
        terminal_value(q.state)
    } else if depth < 10 {
        rough_evaluation(q)
    } else if color == Color::White {
        lesser(
            least_budget_value(q, captures, 0, other, depth, (depth - 3) as nat),
            least_budget_value(q, rest, 0, other, depth, (depth - 10) as nat),
        )
    } else {
        greater(
            greatest_budget_value(q, captures, 0, other, depth, (depth - 3) as nat),
            greatest_budget_value(q, rest, 0, other, depth, (depth - 10) as nat),
        )
    }
}

/// The least of the values of the moves from the `i`-th on, each searched on the budget
/// `left`, which is below `depth`; a win for White if there are none.
pub open spec fn least_budget_value(q: InitialState, moves: Seq<Move>, i: int, mover: Color, depth: nat, left: nat) -> int
    decreases depth, 0nat, moves.len() - i,
{
    if left >= depth || i < 0 || i >= moves.len() {
        WHITE_WIN as int
    } else {
        lesser(
            budget_value(q, moves[i], mover, left),
            least_budget_value(q, moves, i + 1, mover, depth, left),
        )
    }
}

/// The greatest of the values of the moves from the `i`-th on, each searched on the
/// budget `left`, which is below `depth`; a win for Black if there are none.
pub open spec fn greatest_budget_value(q: InitialState, moves: Seq<Move>, i: int, mover: Color, depth: nat, left: nat) -> int
    decreases depth, 0nat, moves.len() - i,
{
    if left >= depth || i < 0 || i >= moves.len() {
        BLACK_WIN as int
    } else {
        greater(
            budget_value(q, moves[i], mover, left),
            greatest_budget_value(q, moves, i + 1, mover, depth, left),
        )
    }
}

/// The value of a move is a win for one side, or lies between the two, where every
/// rough score that the search comes to fits.
pub proof fn lemma_budget_value_bounds(p: InitialState, m: Move, color: Color, depth: nat)
    requires
        budget_fits(p, m, color, depth),
    ensures
        BLACK_WIN <= budget_value(p, m, color, depth) <= WHITE_WIN,
    decreases depth, 1nat, 0nat,
{
    let q = p.after(m);
    let other = color.opposite();
    if depth >= 10 {
        lemma_budget_fold_bounds(q, legal_captures(q, other), 0, other, depth, (depth - 3) as nat);
        lemma_budget_fold_bounds(q, legal_noncaptures(q, other), 0, other, depth, (depth - 10) as nat);
    }
}

/// The best of the values of moves is a win for one side, or lies between the two,
/// where every rough score that the search comes to fits.
pub proof fn lemma_budget_fold_bounds(q: InitialState, moves: Seq<Move>, i: int, mover: Color, depth: nat, left: nat)
    requires
        all_fit(q, moves, i, mover, depth, left),
    ensures
        BLACK_WIN <= least_budget_value(q, moves, i, mover, depth, left) <= WHITE_WIN,
        BLACK_WIN <= greatest_budget_value(q, moves, i, mover, depth, left) <= WHITE_WIN,
    decreases depth, 0nat, moves.len() - i,
{
    if left < depth && 0 <= i < moves.len() {
        lemma_budget_value_bounds(q, moves[i], mover, left);
        lemma_budget_fold_bounds(q, moves, i + 1, mover, depth, left);
    }
}

/// The move that is returned where the side to move has none.
pub open spec fn no_move() -> Move {
    Move { from: Square { rank: 9, file: 9 }, to: Square { rank: 9, file: 9 } }
}

/// The `i`-th of the moves is the last among those of the best value for the side
/// `mover`: no move has a better value, and every later move has a worse one.
pub open spec fn is_last_best(p: InitialState, moves: Seq<Move>, depth: nat, mover: Color, i: int) -> bool {
    &&& 0 <= i < moves.len()
    &&& forall|j: int|
        0 <= j < i ==> !better_for(
            mover,
            #[trigger] budget_value(p, moves[j], mover, depth),
            budget_value(p, moves[i], mover, depth),
        )
    &&& forall|j: int|
        i < j < moves.len() ==> better_for(
            mover,
            budget_value(p, moves[i], mover, depth),
            #[trigger] budget_value(p, moves[j], mover, depth),
        )
}

/// Every move that a filter keeps of all moves by target is a move between squares of
/// the board.
pub proof fn lemma_kept_by_target_valid(pred: spec_fn(Move) -> bool, i: int)
    requires
        0 <= i < all_moves_by_target().filter(pred).len(),
    ensures
        all_moves_by_target().filter(pred)[i].valid(),
{
    let kept = all_moves_by_target().filter(pred);
    lemma_filter_membership(all_moves_by_target(), pred, kept[i]);
    lemma_all_moves_complete(kept[i]);
}

impl Board {
    /// The move that the search on a budget suggests for the side to move, on a budget
    /// of 20.
    pub fn suggest_move(&self) -> (mov: Move)
        requires
            self.active_color != Color::Neither,
            self.move_count + 21 < usize::MAX,
            search_fits(self@.position, self.active_color, 20),
        ensures
            legal_moves(self@.position, self.active_color).len() == 0 ==> mov == no_move(),
            legal_moves(self@.position, self.active_color).len() > 0 ==> mov.valid() && legal(
                self@.position,
                mov,
                self.active_color,
            ),
            legal_moves(self@.position, self.active_color).len() > 0 ==> exists|i: int|
                #[trigger] is_last_best(
                    self@.position,
                    legal_moves(self@.position, self.active_color),
                    20,
                    self.active_color,
                    i,
                ) && mov == legal_moves(self@.position, self.active_color)[i],
    {
        let depth: u16 = 20;
        self.choose_by_minmax(depth)
    }

    /// The move that the search on a budget of `depth` suggests for the side to move:
    /// the last, in the order of enumeration, of the moves of the best value for that
    /// side. A side without a legal move is given a move between squares off the board.
    pub fn choose_by_minmax(&self, depth: u16) -> (mov: Move)
        requires
            self.active_color != Color::Neither,
            self.move_count + depth + 1 < usize::MAX,
            search_fits(self@.position, self.active_color, depth as nat),
        ensures
            legal_moves(self@.position, self.active_color).len() == 0 ==> mov == no_move(),
            legal_moves(self@.position, self.active_color).len() > 0 ==> mov.valid() && legal(
                self@.position,
                mov,
                self.active_color,
            ),
            legal_moves(self@.position, self.active_color).len() > 0 ==> exists|i: int|
                #[trigger] is_last_best(
                    self@.position,
                    legal_moves(self@.position, self.active_color),
                    depth as nat,
                    self.active_color,
                    i,
                ) && mov == legal_moves(self@.position, self.active_color)[i],
    {
        let color = self.active_color;
        let guaranteed_loss = if color == Color::White {
            BLACK_WIN
        } else {
            WHITE_WIN
        };
        let mv = self.slow_enumerate_moves(color);
        let ghost p = self@.position;
        let ghost d = depth as nat;

        let mut best_move_eval = guaranteed_loss;
        let mut best_move = Move { from: Square { rank: 9, file: 9 }, to: Square { rank: 9, file: 9 } };
        let ghost mut best: int = 0;
        let mut i: usize = 0;
        while i < mv.len()
            invariant
                i <= mv@.len(),
                color != Color::Neither,
                color == self.active_color,
                p == self@.position,
                d == depth as nat,
                self.move_count + depth + 1 < usize::MAX,
                search_fits(p, color, d),
                mv@ == legal_moves(p, color),
                i == 0 ==> best_move == no_move() && best_move_eval == guaranteed_loss,
                guaranteed_loss == (if color == Color::White { BLACK_WIN } else { WHITE_WIN }),
                i > 0 ==> 0 <= best < i && best_move == mv@[best] && best_move_eval == budget_value(
                    p,
                    mv@[best],
                    color,
                    d,
                ),
                forall|j: int|
                    0 <= j < i ==> !better_for(
                        color,
                        #[trigger] budget_value(p, mv@[j], color, d),
                        budget_value(p, mv@[best], color, d),
                    ),
                forall|j: int|
                    best < j < i ==> better_for(
                        color,
                        budget_value(p, mv@[best], color, d),
                        #[trigger] budget_value(p, mv@[j], color, d),
                    ),
            decreases mv@.len() - i,
        {
            let mov = mv[i];
            proof {
                crate::enumerate::lemma_kept_moves_valid(legal_for(p, color), i as int);
                assert(budget_fits(p, mv@[i as int], color, d));
            }
            let mut copy = self.freeze();
            let eval = copy.minmax_eval(mov, color, depth);
            let at_least = if color == Color::White {
                eval >= best_move_eval
            } else {
                eval <= best_move_eval
            };
            if at_least {
                best_move_eval = eval;
                best_move = mov;
                proof {
                    best = i as int;
                }
            }
            i += 1;
        }
        proof {
            if mv@.len() > 0 {
                assert(is_last_best(p, mv@, d, color, best));
                crate::enumerate::lemma_kept_moves_valid(legal_for(p, color), best);
                lemma_filter_membership(crate::enumerate::all_moves(), legal_for(p, color), mv@[best]);
            }
        }
        best_move
    }

    /// Makes the move for the side `color` and returns its value for that side, searched
    /// on a budget of `depth`. The board is left with the move made.
    pub fn minmax_eval(&mut self, testing_move: Move, color: Color, depth: u16) -> (v: i16)
        requires
            testing_move.valid(),
            color != Color::Neither,
            old(self).active_color != Color::Neither,
            old(self).move_count + depth + 1 < usize::MAX,
            budget_fits(old(self)@.position, testing_move, color, depth as nat),
        ensures
            final(self)@ == old(self)@.applied(testing_move),
            v == budget_value(old(self)@.position, testing_move, color, depth as nat),
        decreases depth,
    {
        self.make_move(testing_move);
        let opponent = color.switch();
        let non_captures = self.slow_enumerate_noncaptures(opponent);
        let captures = self.slow_enumerate_captures(opponent);
        let ghost q = self@.position;
        let ghost d = depth as nat;

        if non_captures.len() == 0 && captures.len() == 0 {
            return if Board::in_check(&self.state, Color::White) {
                BLACK_WIN
            } else if Board::in_check(&self.state, Color::Black) {
                WHITE_WIN
            } else {
                0
            };
        }
        if depth < 10 {
            return self.rough_analysis();
        }
        let guaranteed_loss = if color == Color::White {
            BLACK_WIN
        } else {
            WHITE_WIN
        };
        let mut best_response_eval = if color == Color::White {
            WHITE_WIN
        } else {
            BLACK_WIN
        };
        let ghost d3 = (depth - 3) as nat;
        let ghost d10 = (depth - 10) as nat;
        proof {
            lemma_budget_fold_bounds(q, captures@, 0, opponent, d, d3);
        }

        let mut i: usize = 0;
        while i < captures.len() && best_response_eval != guaranteed_loss
            invariant
                i <= captures@.len(),
                depth >= 10,
                d == depth as nat,
                d3 == (depth - 3) as nat,
                color != Color::Neither,
                opponent == color.opposite(),
                q == self@.position,
                self.active_color != Color::Neither,
                self.move_count + depth < usize::MAX,
                captures@ == legal_captures(q, opponent),
                all_fit(q, captures@, i as int, opponent, d, d3),
                guaranteed_loss == (if color == Color::White { BLACK_WIN } else { WHITE_WIN }),
                color == Color::White ==> lesser(
                    best_response_eval as int,
                    least_budget_value(q, captures@, i as int, opponent, d, d3),
                ) == least_budget_value(q, captures@, 0, opponent, d, d3),
                color == Color::Black ==> greater(
                    best_response_eval as int,
                    greatest_budget_value(q, captures@, i as int, opponent, d, d3),
                ) == greatest_budget_value(q, captures@, 0, opponent, d, d3),
            decreases captures@.len() - i,
        {
            let mov = captures[i];
            proof {
                lemma_kept_by_target_valid(legal_capture_for(q, opponent), i as int);
            }
            let mut copy = self.freeze();
            let eval = copy.minmax_eval(mov, opponent, depth - 3);
            best_response_eval = if color == Color::White {
                if eval < best_response_eval {
                    eval
                } else {
                    best_response_eval
                }
            } else {
                if eval > best_response_eval {
                    eval
                } else {
                    best_response_eval
                }
            };
            i += 1;
        }
        proof {
            lemma_budget_fold_bounds(q, captures@, i as int, opponent, d, d3);
            lemma_budget_fold_bounds(q, non_captures@, 0, opponent, d, d10);
        }
        let ghost after_captures = best_response_eval as int;
        let mut i: usize = 0;
        while i < non_captures.len() && best_response_eval != guaranteed_loss
            invariant
                i <= non_captures@.len(),
                depth >= 10,
                d == depth as nat,
                d10 == (depth - 10) as nat,
                color != Color::Neither,
                opponent == color.opposite(),
                q == self@.position,
                self.active_color != Color::Neither,
                self.move_count + depth < usize::MAX,
                non_captures@ == legal_noncaptures(q, opponent),
                all_fit(q, non_captures@, i as int, opponent, d, d10),
                guaranteed_loss == (if color == Color::White { BLACK_WIN } else { WHITE_WIN }),
                color == Color::White ==> lesser(
                    best_response_eval as int,
                    least_budget_value(q, non_captures@, i as int, opponent, d, d10),
                ) == lesser(after_captures, least_budget_value(q, non_captures@, 0, opponent, d, d10)),
                color == Color::Black ==> greater(
                    best_response_eval as int,
                    greatest_budget_value(q, non_captures@, i as int, opponent, d, d10),
                ) == greater(after_captures, greatest_budget_value(q, non_captures@, 0, opponent, d, d10)),
            decreases non_captures@.len() - i,
        {
            let mov = non_captures[i];
            proof {
                lemma_kept_by_target_valid(legal_noncapture_for(q, opponent), i as int);
            }
            let mut copy = self.freeze();
            let eval = copy.minmax_eval(mov, opponent, depth - 10);
            best_response_eval = if color == Color::White {
                if eval < best_response_eval {
                    eval
                } else {
                    best_response_eval
                }
            } else {
                if eval > best_response_eval {
                    eval
                } else {
                    best_response_eval
                }
            };
            i += 1;
        }
        proof {
            lemma_budget_fold_bounds(q, non_captures@, i as int, opponent, d, d10);
        }
        best_response_eval
    }

    /// Whether every rough score that the search of the move on a budget of `depth`
    /// comes to fits the numbers in which the search counts. The board is left as it is.
    pub fn search_stays_small(&self, testing_move: Move, color: Color, depth: u16) -> (b: bool)
        requires
            testing_move.valid(),
            color != Color::Neither,
            self.active_color != Color::Neither,
            self.move_count + depth + 1 < usize::MAX,
        ensures
            b == budget_fits(self@.position, testing_move, color, depth as nat),
        decreases depth,
    {
        let mut copy = self.freeze();
        copy.make_move(testing_move);
        let opponent = color.switch();
        let non_captures = copy.slow_enumerate_noncaptures(opponent);
        let captures = copy.slow_enumerate_captures(opponent);
        let ghost q = copy@.position;
        let ghost d = depth as nat;
        if non_captures.len() == 0 && captures.len() == 0 {
            return true;
        }
        if depth < 10 {
            return copy.try_rough_analysis().is_some();
        }
        let ghost d3 = (depth - 3) as nat;
        let ghost d10 = (depth - 10) as nat;
        let mut i: usize = 0;
        while i < captures.len()
            invariant
                i <= captures@.len(),
                depth >= 10,
                d == depth as nat,
                d3 == (depth - 3) as nat,
                opponent == color.opposite(),
                opponent != Color::Neither,
                q == copy@.position,
                copy.active_color != Color::Neither,
                copy.move_count + depth < usize::MAX,
                q == self@.position.after(testing_move),
                captures@ == legal_captures(q, opponent),
                non_captures@ == legal_noncaptures(q, opponent),
                !(non_captures@.len() == 0 && captures@.len() == 0),
                all_fit(q, captures@, 0, opponent, d, d3) == all_fit(q, captures@, i as int, opponent, d, d3),
            decreases captures@.len() - i,
        {
            proof {
                lemma_kept_by_target_valid(legal_capture_for(q, opponent), i as int);
            }
            if !copy.search_stays_small(captures[i], opponent, depth - 3) {
                return false;
            }
            i += 1;
        }
        let mut i: usize = 0;
        while i < non_captures.len()
            invariant
                i <= non_captures@.len(),
                depth >= 10,
                d == depth as nat,
                d10 == (depth - 10) as nat,
                opponent == color.opposite(),
                opponent != Color::Neither,
                q == copy@.position,
                copy.active_color != Color::Neither,
                copy.move_count + depth < usize::MAX,
                q == self@.position.after(testing_move),
                captures@ == legal_captures(q, opponent),
                non_captures@ == legal_noncaptures(q, opponent),
                !(non_captures@.len() == 0 && captures@.len() == 0),
                all_fit(q, captures@, 0, opponent, d, (depth - 3) as nat),
                all_fit(q, non_captures@, 0, opponent, d, d10) == all_fit(
                    q,
                    non_captures@,
                    i as int,
                    opponent,
                    d,
                    d10,
                ),
            decreases non_captures@.len() - i,
        {
            proof {
                lemma_kept_by_target_valid(legal_noncapture_for(q, opponent), i as int);
            }
            if !copy.search_stays_small(non_captures[i], opponent, depth - 10) {
                return false;
            }
            i += 1;
        }
        true
    }

    /// The value of the move for the side that makes it, searched on a budget of
    /// `depth`, with the move made on the board; or nothing, with the board left as it
    /// is, where a rough score that the search comes to does not fit the numbers in
    /// which it counts.
    pub fn try_minmax_eval(&mut self, testing_move: Move, color: Color, depth: u16) -> (v: Option<i16>)
        requires
            testing_move.valid(),
            color != Color::Neither,
            old(self).active_color != Color::Neither,
            old(self).move_count + depth + 1 < usize::MAX,
        ensures
            v is Some == budget_fits(old(self)@.position, testing_move, color, depth as nat),
            v is Some ==> final(self)@ == old(self)@.applied(testing_move) && v.unwrap() == budget_value(
                old(self)@.position,
                testing_move,
                color,
                depth as nat,
            ),
            v is None ==> final(self)@ == old(self)@,
    {
        if self.search_stays_small(testing_move, color, depth) {
            Some(self.minmax_eval(testing_move, color, depth))
        } else {
            None
        }
    }

    /// The move that the search on a budget of `depth` suggests for the side to move, or
    /// nothing where a rough score that the search comes to does not fit the numbers in
    /// which it counts.
    pub fn try_choose_by_minmax(&self, depth: u16) -> (mov: Option<Move>)
        requires
            self.active_color != Color::Neither,
            self.move_count + depth + 1 < usize::MAX,
        ensures
            mov is Some == search_fits(self@.position, self.active_color, depth as nat),
            mov is Some && legal_moves(self@.position, self.active_color).len() == 0 ==> mov.unwrap()
                == no_move(),
            mov is Some && legal_moves(self@.position, self.active_color).len() > 0 ==> exists|i: int|
                #[trigger] is_last_best(
                    self@.position,
                    legal_moves(self@.position, self.active_color),
                    depth as nat,
                    self.active_color,
                    i,
                ) && mov.unwrap() == legal_moves(self@.position, self.active_color)[i],
    {
        let color = self.active_color;
        let moves = self.slow_enumerate_moves(color);
        let ghost p = self@.position;
        let mut i: usize = 0;
        while i < moves.len()
            invariant
                i <= moves@.len(),
                color == self.active_color,
                color != Color::Neither,
                p == self@.position,
                self.move_count + depth + 1 < usize::MAX,
                moves@ == legal_moves(p, color),
                forall|j: int| 0 <= j < i ==> #[trigger] budget_fits(p, moves@[j], color, depth as nat),
            decreases moves@.len() - i,
        {
            proof {
                crate::enumerate::lemma_kept_moves_valid(legal_for(p, color), i as int);
            }
            if !self.search_stays_small(moves[i], color, depth) {
                assert(!budget_fits(p, legal_moves(p, color)[i as int], color, depth as nat));
                return None;
            }
            i += 1;
        }
        Some(self.choose_by_minmax(depth))
    }

    /// The move that the search on a budget of 20 suggests for the side to move, or
    /// nothing where a rough score that the search comes to does not fit the numbers in
    /// which it counts.
    pub fn try_suggest_move(&self) -> (mov: Option<Move>)
        requires
            self.active_color != Color::Neither,
            self.move_count + 21 < usize::MAX,
        ensures
            mov is Some == search_fits(self@.position, self.active_color, 20),
            mov is Some && legal_moves(self@.position, self.active_color).len() == 0 ==> mov.unwrap()
                == no_move(),
            mov is Some && legal_moves(self@.position, self.active_color).len() > 0 ==> exists|i: int|
                #[trigger] is_last_best(
                    self@.position,
                    legal_moves(self@.position, self.active_color),
                    20,
                    self.active_color,
                    i,
                ) && mov.unwrap() == legal_moves(self@.position, self.active_color)[i],
    {
        self.try_choose_by_minmax(20)
    }

    /// The rough score of the position, or nothing where it does not fit the numbers in
    /// which the search counts.
    pub fn try_rough_analysis(&self) -> (v: Option<i16>)
        ensures
            v is Some == rough_fits(self@.position),
            v is Some ==> v.unwrap() == rough_evaluation(self@.position),
    {
        let infs = Board::influence_grid(&self.state);
        let material = Board::material_count(&self.state);
        proof {
            let g = self.state;
            let t = unit_pressure_term(g, infs);
            let u = rough_pressure_term(g);
            assert forall|i: int, j: int| 0 <= i < 8 && 0 <= j < 8 implies #[trigger] t(i, j) == u(i, j) by {
                assert(infs[i][j] == influence_on(
                    g,
                    Square { rank: i as u8, file: j as u8 },
                    Weighting::Unit,
                    Color::Neither,
                ));
            }
            lemma_grid_sum_ext(t, u);
            lemma_unit_influence_score_fits(g, infs);
        }
        let influence = Board::influence_coeff(&self.state, infs);
        let total: i32 = material as i32 * 100 + influence as i32;
        if total >= -32768 && total <= 32767 {
            Some(total as i16)
        } else {
            None
        }
    }

    /// The influence on every square, every piece weighed as 1: the number of White's
    /// pieces that bear on the square less the number of Black's.
    pub fn influence_grid(board: &[[Piece; 8]; 8]) -> (infs: [[i8; 8]; 8])
        ensures
            forall|r: int, f: int|
                0 <= r < 8 && 0 <= f < 8 ==> #[trigger] infs[r][f] == influence_on(
                    *board,
                    Square { rank: r as u8, file: f as u8 },
                    Weighting::Unit,
                    Color::Neither,
                ),
            forall|r: int, f: int| 0 <= r < 8 && 0 <= f < 8 ==> -64 <= #[trigger] infs[r][f] <= 64,
    {
        proof {
            lemma_unit_influences_fit(*board);
        }
        let infs = small_influence(board, Weighting::Unit);
        proof {
            assert forall|r: int, f: int| 0 <= r < 8 && 0 <= f < 8 implies -64 <= #[trigger] infs[r][f]
                <= 64 by {
                lemma_unit_influence_bounds(*board, Square { rank: r as u8, file: f as u8 });
            }
        }
        infs
    }

    /// The rough score of the position: a hundred times the material in whole pawns, and
    /// the influence score with every piece weighed as 1.
    pub fn rough_analysis(&self) -> (v: i16)
        requires
            rough_fits(self@.position),
        ensures
            v == rough_evaluation(self@.position),
    {
        let infs = Board::influence_grid(&self.state);
        let material = Board::material_count(&self.state);
        proof {
            let g = self.state;
            let t = unit_pressure_term(g, infs);
            let u = rough_pressure_term(g);
            assert forall|i: int, j: int| 0 <= i < 8 && 0 <= j < 8 implies #[trigger] t(i, j) == u(i, j) by {
                assert(infs[i][j] == influence_on(
                    g,
                    Square { rank: i as u8, file: j as u8 },
                    Weighting::Unit,
                    Color::Neither,
                ));
            }
            lemma_grid_sum_ext(t, u);
            lemma_unit_influence_score_fits(g, infs);
        }
        let influence = Board::influence_coeff(&self.state, infs);
        let total: i32 = material as i32 * 100 + influence as i32;
        total as i16
    }

    /// The influence score of a position under the given influences.
    pub fn influence_coeff(board: &[[Piece; 8]; 8], infs: [[i8; 8]; 8]) -> (v: i16)
        requires
            -32768 <= unit_influence_score(*board, infs) <= 32767,
        ensures
            v == unit_influence_score(*board, infs),
    {
        let ghost t = unit_pressure_term(*board, infs);
        let mut sum: i32 = 0;
        let mut r: usize = 0;
        while r < 8
            invariant
                r <= 8,
                t == unit_pressure_term(*board, infs),
                sum == rows_sum(t, r as int),
                -5120 * r <= sum <= 5120 * r,
            decreases 8 - r,
        {
            let mut f: usize = 0;
            while f < 8
                invariant
                    r < 8,
                    f <= 8,
                    t == unit_pressure_term(*board, infs),
                    sum == rows_sum(t, r as int) + cells_sum(t, r as int, f as int),
                    -5120 * r - 640 * f <= sum <= 5120 * r + 640 * f,
                decreases 8 - f,
            {
                let inf: i32 = infs[r][f] as i32;
                let size: i32 = if inf >= 0 {
                    inf
                } else {
                    -inf
                };
                sum += inf;
                match board[r][f].color() {
                    Color::Neither => {},
                    Color::White => {
                        sum += inf * 2 - size;
                    },
                    Color::Black => {
                        sum += inf * 2 + size;
                    },
                }
                if r >= 3 && r <= 4 && f >= 3 && f <= 4 {
                    sum += inf;
                }
                f += 1;
            }
            r += 1;
        }
        sum as i16
    }

    /// White's material less Black's, in whole pawns.
    pub fn material_count(board: &[[Piece; 8]; 8]) -> (v: i16)
        ensures
            v == rough_material(*board),
            -3840 <= v <= 3840,
    {
        let ghost t = rough_material_term(*board);
        let mut total: i16 = 0;
        let mut rank: usize = 0;
        while rank < 8
            invariant
                rank <= 8,
                t == rough_material_term(*board),
                total == rows_sum(t, rank as int),
                -480 * rank <= total <= 480 * rank,
            decreases 8 - rank,
        {
            let mut file: usize = 0;
            while file < 8
                invariant
                    rank < 8,
                    file <= 8,
                    t == rough_material_term(*board),
                    total == rows_sum(t, rank as int) + cells_sum(t, rank as int, file as int),
                    -480 * rank - 60 * file <= total <= 480 * rank + 60 * file,
                decreases 8 - file,
            {
                let piece = board[rank][file];
                let material_eval = piece.rough_value(rank as u8);
                match piece.color() {
                    Color::Neither => {},
                    Color::White => {
                        total += material_eval;
                    },
                    Color::Black => {
                        total -= material_eval;
                    },
                }
                file += 1;
            }
            rank += 1;
        }
        total
    }
}

} // verus!
