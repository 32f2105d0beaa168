//! Search by minimax with alpha-beta pruning.

use vstd::prelude::*;
use crate::attack::in_check;
use crate::board::{Board, Grid, InitialState, Move};
use crate::enumerate::{
    hopeful_order, law_hopeful_order_is_a_reordering, lemma_hopeful_moves_valid,
    lemma_hopeful_order_complete, lemma_no_legal_move, no_legal_move,
};
use crate::legality::legal;
use crate::heuristics::{evaluation, lemma_evaluation_bounds};
use crate::piece::Color;

verus! {

/// The value of a position that White has won.
pub const WHITE_WIN: i32 = 2147483647;

/// The value of a position that Black has won.
pub const BLACK_WIN: i32 = -2147483648;

/// The value of a position in which the side to move has no legal move: lost for the
/// side in check, drawn if neither is.
pub open spec fn terminal_value(g: Grid) -> int {
    if in_check(g, Color::White) {
        BLACK_WIN as int
    } else if in_check(g, Color::Black) {
        WHITE_WIN as int
    } else {
        0
    }
}

/// The smaller of two values.
pub open spec fn lesser(a: int, b: int) -> int {
    if a <= b {
        a
    } else {
        b
    }
}

/// The greater of two values.
pub open spec fn greater(a: int, b: int) -> int {
    if a >= b {
        a
    } else {
        b
    }
}

/// The value of a position with Black to move, searched `depth` plies deep with perfect
/// play on both sides: the least of the values that Black's moves lead to.
pub open spec fn min_value(p: InitialState, depth: nat) -> int
    decreases depth, 1nat, 0nat,
{
    let moves = hopeful_order(p, Color::Black);
    if moves.len() == 0 {
        terminal_value(p.state)
    } else if depth == 0 {
        evaluation(p)
    } else {
        least_reply(p, moves, 0, depth)
    }
}

/// The least of the values that the moves from the `i`-th on lead to, a win for White
/// if there are none.
pub open spec fn least_reply(p: InitialState, moves: Seq<Move>, i: int, depth: nat) -> int
    decreases depth, 0nat, moves.len() - i,
{
    if depth == 0 || i < 0 || i >= moves.len() {
        WHITE_WIN as int
    } else {
        lesser(max_value(p.after(moves[i]), (depth - 1) as nat), least_reply(p, moves, i + 1, depth))
    }
}

/// The value of a position with White to move, searched `depth` plies deep with perfect
/// play on both sides: the greatest of the values that White's moves lead to.
pub open spec fn max_value(p: InitialState, depth: nat) -> int
    decreases depth, 1nat, 0nat,
{
    let moves = hopeful_order(p, Color::White);
    if moves.len() == 0 {
        terminal_value(p.state)
    } else if depth == 0 {
        evaluation(p)
    } else {
        greatest_reply(p, moves, 0, depth)
    }
}

/// The greatest of the values that the moves from the `i`-th on lead to, a win for Black
/// if there are none.
pub open spec fn greatest_reply(p: InitialState, moves: Seq<Move>, i: int, depth: nat) -> int
    decreases depth, 0nat, moves.len() - i,
{
    if depth == 0 || i < 0 || i >= moves.len() {
        BLACK_WIN as int
    } else {
        greater(min_value(p.after(moves[i]), (depth - 1) as nat), greatest_reply(p, moves, i + 1, depth))
    }
}

/// The result `x` of a search within the window from `alpha` to `beta` stands for the
/// true value `v`: it is `v` where `v` lies inside the window, and lies on the same side
/// of the window as `v` where it does not.
pub open spec fn agrees_in_window(x: int, v: int, alpha: int, beta: int) -> bool {
    &&& v <= alpha ==> x <= alpha
    &&& v >= beta ==> x >= beta
    &&& alpha < v < beta ==> x == v
}

/// The value, for the side `mover`, of the position that its move `m` leads to.
pub open spec fn reply_value(p: InitialState, m: Move, depth: nat, mover: Color) -> int {
    if mover == Color::White {
        min_value(p.after(m), depth)
    } else {
        max_value(p.after(m), depth)
    }
}

/// The value `a` is better for the side `mover` than the value `b`.
pub open spec fn better_for(mover: Color, a: int, b: int) -> bool {
    if mover == Color::White {
        a > b
    } else {
        a < b
    }
}

/// The `i`-th of the moves is the first among those that lead to the best value for the
/// side `mover`: better than every earlier move, and no later move is better.
pub open spec fn is_first_best(p: InitialState, moves: Seq<Move>, depth: nat, mover: Color, i: int) -> bool {
    &&& 0 <= i < moves.len()
    &&& forall|j: int|
        0 <= j < i ==> better_for(
            mover,
            reply_value(p, moves[i], depth, mover),
            #[trigger] reply_value(p, moves[j], depth, mover),
        )
    &&& forall|j: int|
        i < j < moves.len() ==> !better_for(
            mover,
            #[trigger] reply_value(p, moves[j], depth, mover),
            reply_value(p, moves[i], depth, mover),
        )
}

/// The value of a position is a win for one side, or lies between the two.
pub proof fn lemma_value_bounds(p: InitialState, depth: nat)
    ensures
        BLACK_WIN <= min_value(p, depth) <= WHITE_WIN,
        BLACK_WIN <= max_value(p, depth) <= WHITE_WIN,
    decreases depth, 1nat, 0nat,
{
    lemma_evaluation_bounds(p);
    if depth > 0 {
        lemma_reply_bounds(p, hopeful_order(p, Color::Black), 0, depth);
        lemma_reply_bounds(p, hopeful_order(p, Color::White), 0, depth);
    }
}

/// The best of the values that moves lead to is a win for one side, or lies between the
/// two.
pub proof fn lemma_reply_bounds(p: InitialState, moves: Seq<Move>, i: int, depth: nat)
    requires
        depth > 0,
    ensures
        BLACK_WIN <= least_reply(p, moves, i, depth) <= WHITE_WIN,
        BLACK_WIN <= greatest_reply(p, moves, i, depth) <= WHITE_WIN,
    decreases depth, 0nat, moves.len() - i,
{
    if 0 <= i < moves.len() {
        lemma_value_bounds(p.after(moves[i]), (depth - 1) as nat);
        lemma_reply_bounds(p, moves, i + 1, depth);
    }
}

/// The values, for the side `mover`, of the positions that its moves lead to.
pub open spec fn reply_values(p: InitialState, moves: Seq<Move>, depth: nat, mover: Color) -> Seq<int> {
    Seq::new(moves.len(), |j: int| reply_value(p, moves[j], depth, mover))
}

/// Among the first `i` values, the one at `best` is the first of the best for the side
/// `mover`.
pub open spec fn first_best_so_far(vals: Seq<int>, mover: Color, best: int, i: int) -> bool {
    &&& 0 <= best < vals.len()
    &&& 0 <= i <= vals.len()
    &&& i == 0 ==> best == 0
    &&& i > 0 ==> best < i
    &&& forall|j: int| 0 <= j < vals.len() ==> BLACK_WIN <= #[trigger] vals[j] <= WHITE_WIN
    &&& forall|j: int| 0 <= j < best ==> better_for(mover, vals[best], #[trigger] vals[j])
    &&& forall|j: int| best < j < i ==> !better_for(mover, #[trigger] vals[j], vals[best])
}

/// The window of the search at the root, once `i` moves have been tried: the bound of
/// the side `mover` is the best value found, the other bound is still open.
pub open spec fn bound_so_far(vals: Seq<int>, mover: Color, best: int, i: int, alpha: int, beta: int) -> bool {
    if mover == Color::White {
        beta == WHITE_WIN && alpha == (if i == 0 {
            BLACK_WIN as int
        } else {
            vals[best]
        })
    } else {
        alpha == BLACK_WIN && beta == (if i == 0 {
            WHITE_WIN as int
        } else {
            vals[best]
        })
    }
}

/// What the result of searching one more move means at the root: the move becomes the
/// best exactly if the result improves the mover's bound, and the bound stays the value
/// of the best move.
pub proof fn lemma_first_best_step(vals: Seq<int>, mover: Color, best: int, i: int, alpha: int, beta: int, eval: int)
    requires
        mover != Color::Neither,
        i < vals.len(),
        first_best_so_far(vals, mover, best, i),
        bound_so_far(vals, mover, best, i, alpha, beta),
        BLACK_WIN <= eval <= WHITE_WIN,
        alpha < beta ==> agrees_in_window(eval, vals[i], alpha, beta),
        alpha >= beta ==> eval == (if mover == Color::White {
            WHITE_WIN
        } else {
            BLACK_WIN
        }),
    ensures
        mover == Color::White && alpha < eval ==> first_best_so_far(vals, mover, i, i + 1)
            && bound_so_far(vals, mover, i, i + 1, eval, beta),
        mover == Color::White && !(alpha < eval) ==> first_best_so_far(vals, mover, best, i + 1)
            && bound_so_far(vals, mover, best, i + 1, alpha, beta),
        mover == Color::Black && beta > eval ==> first_best_so_far(vals, mover, i, i + 1)
            && bound_so_far(vals, mover, i, i + 1, alpha, eval),
        mover == Color::Black && !(beta > eval) ==> first_best_so_far(vals, mover, best, i + 1)
            && bound_so_far(vals, mover, best, i + 1, alpha, beta),
{
}

/// The first of the best values is the value of the first of the best moves.
pub proof fn lemma_first_best_done(p: InitialState, moves: Seq<Move>, depth: nat, mover: Color, best: int)
    requires
        first_best_so_far(reply_values(p, moves, depth, mover), mover, best, moves.len() as int),
    ensures
        is_first_best(p, moves, depth, mover, best),
{
    let vals = reply_values(p, moves, depth, mover);
    assert forall|j: int| 0 <= j < best implies better_for(
        mover,
        reply_value(p, moves[best], depth, mover),
        #[trigger] reply_value(p, moves[j], depth, mover),
    ) by {
        assert(vals[j] == reply_value(p, moves[j], depth, mover));
    }
    assert forall|j: int| best < j < moves.len() implies !better_for(
        mover,
        #[trigger] reply_value(p, moves[j], depth, mover),
        reply_value(p, moves[best], depth, mover),
    ) by {
        assert(vals[j] == reply_value(p, moves[j], depth, mover));
    }
}

/// The least of the values from the `i`-th on, the value of a game won by White if there
/// are none.
pub open spec fn least_of(vals: Seq<int>, i: int) -> int
    decreases vals.len() - i,
{
    if i < 0 || i >= vals.len() {
        WHITE_WIN as int
    } else {
        lesser(vals[i], least_of(vals, i + 1))
    }
}

/// The greatest of the values from the `i`-th on, the value of a game won by Black if
/// there are none.
pub open spec fn greatest_of(vals: Seq<int>, i: int) -> int
    decreases vals.len() - i,
{
    if i < 0 || i >= vals.len() {
        BLACK_WIN as int
    } else {
        greater(vals[i], greatest_of(vals, i + 1))
    }
}

/// The least of values is at most each of them, and is one of them unless it is the
/// value of a game won by White; the greatest is at least each of them, and is one of
/// them unless it is the value of a game won by Black.
pub proof fn lemma_best_of(vals: Seq<int>, i: int)
    requires
        0 <= i <= vals.len(),
    ensures
        forall|j: int| i <= j < vals.len() ==> least_of(vals, i) <= #[trigger] vals[j],
        least_of(vals, i) == WHITE_WIN || exists|j: int|
            i <= j < vals.len() && least_of(vals, i) == #[trigger] vals[j],
        forall|j: int| i <= j < vals.len() ==> greatest_of(vals, i) >= #[trigger] vals[j],
        greatest_of(vals, i) == BLACK_WIN || exists|j: int|
            i <= j < vals.len() && greatest_of(vals, i) == #[trigger] vals[j],
    decreases vals.len() - i,
{
    if i < vals.len() {
        lemma_best_of(vals, i + 1);
        let least = least_of(vals, i);
        if least != WHITE_WIN {
            if least == vals[i] {
            } else {
                let j = choose|j: int| i + 1 <= j < vals.len() && least_of(vals, i + 1) == #[trigger] vals[j];
            }
        }
        let greatest = greatest_of(vals, i);
        if greatest != BLACK_WIN {
            if greatest == vals[i] {
            } else {
                let j = choose|j: int|
                    i + 1 <= j < vals.len() && greatest_of(vals, i + 1) == #[trigger] vals[j];
            }
        }
    }
}

/// The best of the values that moves lead to, as the best of their values taken one by
/// one.
pub proof fn lemma_best_reply_of_values(p: InitialState, moves: Seq<Move>, i: int, depth: nat)
    requires
        depth > 0,
        0 <= i <= moves.len(),
    ensures
        least_reply(p, moves, i, depth) == least_of(reply_values(p, moves, (depth - 1) as nat, Color::Black), i),
        greatest_reply(p, moves, i, depth) == greatest_of(
            reply_values(p, moves, (depth - 1) as nat, Color::White),
            i,
        ),
    decreases moves.len() - i,
{
    if i < moves.len() {
        lemma_best_reply_of_values(p, moves, i + 1, depth);
    }
}

/// The best of the values that moves lead to is no better than the best over moves that
/// include them.
pub proof fn lemma_best_reply_of_more_moves(p: InitialState, a: Seq<Move>, b: Seq<Move>, depth: nat)
    requires
        depth > 0,
        forall|m: Move| a.contains(m) ==> b.contains(m),
    ensures
        least_reply(p, b, 0, depth) <= least_reply(p, a, 0, depth),
        greatest_reply(p, b, 0, depth) >= greatest_reply(p, a, 0, depth),
{
    let d = (depth - 1) as nat;
    lemma_best_reply_of_values(p, a, 0, depth);
    lemma_best_reply_of_values(p, b, 0, depth);
    lemma_reply_bounds(p, a, 0, depth);
    lemma_reply_bounds(p, b, 0, depth);
    let low_a = reply_values(p, a, d, Color::Black);
    let low_b = reply_values(p, b, d, Color::Black);
    lemma_best_of(low_a, 0);
    lemma_best_of(low_b, 0);
    if least_of(low_a, 0) != WHITE_WIN {
        let j = choose|j: int| 0 <= j < low_a.len() && least_of(low_a, 0) == #[trigger] low_a[j];
        assert(a.contains(a[j]));
        let k = choose|k: int| 0 <= k < b.len() && b[k] == a[j];
        assert(low_b[k] == low_a[j]);
    }
    let high_a = reply_values(p, a, d, Color::White);
    let high_b = reply_values(p, b, d, Color::White);
    lemma_best_of(high_a, 0);
    lemma_best_of(high_b, 0);
    if greatest_of(high_a, 0) != BLACK_WIN {
        let j = choose|j: int| 0 <= j < high_a.len() && greatest_of(high_a, 0) == #[trigger] high_a[j];
        assert(a.contains(a[j]));
        let k = choose|k: int| 0 <= k < b.len() && b[k] == a[j];
        assert(high_b[k] == high_a[j]);
    }
}

/// The order in which moves are tried does not change the value that is found: two
/// sequences that hold the same moves lead to the same best value.
pub proof fn law_move_order_does_not_change_the_value(p: InitialState, a: Seq<Move>, b: Seq<Move>, depth: nat)
    requires
        depth > 0,
        forall|m: Move| a.contains(m) <==> b.contains(m),
    ensures
        least_reply(p, a, 0, depth) == least_reply(p, b, 0, depth),
        greatest_reply(p, a, 0, depth) == greatest_reply(p, b, 0, depth),
{
    lemma_best_reply_of_more_moves(p, a, b, depth);
    lemma_best_reply_of_more_moves(p, b, a, depth);
}

/// Sequences that hold each move as often hold the same moves.
pub proof fn lemma_same_moves(a: Seq<Move>, b: Seq<Move>)
    requires
        a.to_multiset() == b.to_multiset(),
    ensures
        forall|m: Move| a.contains(m) <==> b.contains(m),
        a.len() == b.len(),
{
    a.to_multiset_ensures();
    b.to_multiset_ensures();
    assert forall|m: Move| a.contains(m) <==> b.contains(m) by {
        assert(b.contains(m) <==> b.to_multiset().count(m) > 0);
    }
}

/// The value of a position is the best, for the side to move, of the values that its
/// legal moves lead to, in whatever order they are taken.
pub proof fn law_value_is_best_over_legal_moves(p: InitialState, depth: nat)
    requires
        depth > 0,
    ensures
        crate::enumerate::legal_moves(p, Color::Black).len() > 0 ==> min_value(p, depth) == least_reply(
            p,
            crate::enumerate::legal_moves(p, Color::Black),
            0,
            depth,
        ),
        crate::enumerate::legal_moves(p, Color::White).len() > 0 ==> max_value(p, depth)
            == greatest_reply(p, crate::enumerate::legal_moves(p, Color::White), 0, depth),
{
    law_hopeful_order_is_a_reordering(p, Color::Black);
    law_hopeful_order_is_a_reordering(p, Color::White);
    lemma_same_moves(hopeful_order(p, Color::Black), crate::enumerate::legal_moves(p, Color::Black));
    lemma_same_moves(hopeful_order(p, Color::White), crate::enumerate::legal_moves(p, Color::White));
    law_move_order_does_not_change_the_value(
        p,
        hopeful_order(p, Color::Black),
        crate::enumerate::legal_moves(p, Color::Black),
        depth,
    );
    law_move_order_does_not_change_the_value(
        p,
        hopeful_order(p, Color::White),
        crate::enumerate::legal_moves(p, Color::White),
        depth,
    );
}

/// The move mates: it is legal, and after it the other side is in check and has no legal
/// move.
pub open spec fn mates(p: InitialState, m: Move, mover: Color) -> bool {
    &&& m.valid()
    &&& legal(p, m, mover)
    &&& no_legal_move(p.after(m), mover.opposite())
    &&& in_check(p.after(m).state, mover.opposite())
}

/// The value that stands for a game won by the given side.
pub open spec fn win_for(mover: Color) -> int {
    if mover == Color::White {
        WHITE_WIN as int
    } else {
        BLACK_WIN as int
    }
}

/// A move that mates leads to a position of the value of a won game, however deep the
/// search goes.
pub proof fn law_mate_is_valued_as_a_win(p: InitialState, m: Move, mover: Color, depth: nat)
    requires
        mover != Color::Neither,
        mates(p, m, mover),
    ensures
        reply_value(p, m, depth, mover) == win_for(mover),
{
    let q = p.after(m);
    let other = mover.opposite();
    lemma_no_legal_move(q, other);
    law_hopeful_order_is_a_reordering(q, other);
}

/// No move leads to a better value than the first of the best moves.
pub proof fn lemma_first_best_is_best(p: InitialState, moves: Seq<Move>, depth: nat, mover: Color, i: int, j: int)
    requires
        mover != Color::Neither,
        is_first_best(p, moves, depth, mover, i),
        0 <= j < moves.len(),
    ensures
        !better_for(
            mover,
            reply_value(p, moves[j], depth, mover),
            reply_value(p, moves[i], depth, mover),
        ),
{
    let best = reply_value(p, moves[i], depth, mover);
    let other = reply_value(p, moves[j], depth, mover);
    if j < i {
        assert(better_for(mover, best, other));
    }
}

/// Where a move mates, the search finds a win: the first of the best moves leads to a
/// position of the value of a won game.
pub proof fn law_search_takes_a_mate(p: InitialState, mover: Color, depth: nat, i: int, mate: Move)
    requires
        mover != Color::Neither,
        mates(p, mate, mover),
        is_first_best(p, hopeful_order(p, mover), depth, mover, i),
    ensures
        reply_value(p, hopeful_order(p, mover)[i], depth, mover) == win_for(mover),
{
    let moves = hopeful_order(p, mover);
    let best = reply_value(p, moves[i], depth, mover);
    let won = reply_value(p, mate, depth, mover);
    assert(moves.contains(mate)) by {
        lemma_hopeful_order_complete(p, mover, mate);
    }
    let j = choose|j: int| 0 <= j < moves.len() && moves[j] == mate;
    assert(won == win_for(mover)) by {
        law_mate_is_valued_as_a_win(p, mate, mover, depth);
    }
    assert(BLACK_WIN <= best <= WHITE_WIN) by {
        assert(0 <= i < moves.len());
        lemma_value_bounds(p.after(moves[i]), depth);
    }
    assert(!better_for(mover, won, best)) by {
        lemma_first_best_is_best(p, moves, depth, mover, i, j);
    }
}

/// The number of moves made in a position that was reached by a sequence of moves.
pub proof fn lemma_move_count(initial: InitialState, ms: Seq<Move>)
    requires
        initial.move_count + ms.len() <= usize::MAX,
    ensures
        initial.after_all(ms).move_count == initial.move_count + ms.len(),
    decreases ms.len(),
{
    if ms.len() > 0 {
        lemma_move_count(initial, ms.drop_last());
    }
}

impl Board {
    /// The board can be searched `depth` plies deep and restored from the snapshot: its
    /// position is the one its moves lead to from the snapshot, a side is to move, and
    /// the count of moves cannot overflow.
    pub open spec fn searchable(&self, initial: InitialState, depth: int) -> bool {
        &&& self.wf()
        &&& self@.replays_from(initial)
        &&& initial.active_color != Color::Neither
        &&& initial.move_count + self.history@.len() + depth < usize::MAX
    }

    /// The move that the search suggests for the side to move, three plies deep.
    pub fn abq_suggest_move(&mut self) -> (mov: Move)
        requires
            old(self).active_color != Color::Neither,
            old(self).move_count + 4 < usize::MAX,
            !no_legal_move(old(self)@.position, old(self).active_color),
        ensures
            final(self)@ == old(self)@,
            mov.valid(),
            legal(old(self)@.position, mov, old(self).active_color),
            exists|i: int|
                #[trigger] is_first_best(
                    old(self)@.position,
                    hopeful_order(old(self)@.position, old(self).active_color),
                    3,
                    old(self).active_color,
                    i,
                ) && mov == hopeful_order(old(self)@.position, old(self).active_color)[i],
    {
        self.abq_suggest_move_depth(3)
    }

    /// The move that the search suggests for the side to move: the first, in the order
    /// in which moves are tried, of those that lead to the position of the best value
    /// for that side, each such position searched `depth` plies deep.
    pub fn abq_suggest_move_depth(&mut self, depth: u16) -> (mov: Move)
        requires
            old(self).active_color != Color::Neither,
            old(self).move_count + depth + 1 < usize::MAX,
            !no_legal_move(old(self)@.position, old(self).active_color),
        ensures
            final(self)@ == old(self)@,
            mov.valid(),
            legal(old(self)@.position, mov, old(self).active_color),
            exists|i: int|
                #[trigger] is_first_best(
                    old(self)@.position,
                    hopeful_order(old(self)@.position, old(self).active_color),
                    depth as nat,
                    old(self).active_color,
                    i,
                ) && mov == hopeful_order(old(self)@.position, old(self).active_color)[i],
    {
        let color = self.active_color;
        proof {
            lemma_no_legal_move(self@.position, color);
            law_hopeful_order_is_a_reordering(self@.position, color);
        }
        let possibilities = self.slow_enumerate_hopeful_order(color);
        let mut test_board = self.freeze();
        let init = self.freeze_init();
        let ghost p = self@.position;
        let ghost d = depth as nat;
        let ghost vals = reply_values(p, possibilities@, d, color);
        let mut best_move = possibilities[0];
        let ghost mut best: int = 0;

        let mut alpha: i32 = BLACK_WIN;
        let mut beta: i32 = WHITE_WIN;
        proof {
            assert forall|j: int| 0 <= j < vals.len() implies BLACK_WIN <= #[trigger] vals[j]
                <= WHITE_WIN by {
                lemma_value_bounds(p.after(possibilities@[j]), d);
            }
        }
        let mut i: usize = 0;
        while i < possibilities.len()
            invariant
                i <= possibilities@.len(),
                possibilities@ == hopeful_order(p, color),
                color != Color::Neither,
                d == depth as nat,
                init == p,
                vals == reply_values(p, possibilities@, d, color),
                test_board@.position == p,
                test_board@.history == Seq::<Move>::empty(),
                test_board.searchable(init, depth + 1),
                best_move == possibilities@[best],
                first_best_so_far(vals, color, best, i as int),
                bound_so_far(vals, color, best, i as int, alpha as int, beta as int),
            decreases possibilities@.len() - i,
        {
            let mov = possibilities[i];
            proof {
                lemma_hopeful_moves_valid(p, color, i as int);
                lemma_move_count(init, test_board@.history);
                assert(test_board@.history.push(mov).drop_last() =~= test_board@.history);
            }
            test_board.make_move(mov);
            let eval = if color == Color::White {
                test_board.minmax_min_q(depth, alpha, beta, &init)
            } else {
                test_board.minmax_max_q(depth, alpha, beta, &init)
            };
            test_board.undo(&init);
            proof {
                lemma_first_best_step(vals, color, best, i as int, alpha as int, beta as int, eval as int);
            }
            if color == Color::White {
                if alpha < eval {
                    best_move = mov;
                    alpha = eval;
                    proof {
                        best = i as int;
                    }
                }
            } else {
                if beta > eval {
                    best_move = mov;
                    beta = eval;
                    proof {
                        best = i as int;
                    }
                }
            }
            i += 1;
        }
        proof {
            lemma_first_best_done(p, possibilities@, d, color, best);
            lemma_hopeful_moves_valid(p, color, best);
        }
        best_move
    }

    /// The value of the position with Black to move, searched `depth` plies deep within
    /// the window from `alpha` to `beta`. The board is left as it was.
    pub fn minmax_min_q(&mut self, depth: u16, alpha: i32, beta: i32, init: &InitialState) -> (v: i32)
        requires
            old(self).searchable(*init, depth as int),
        ensures
            final(self)@ == old(self)@,
            alpha < beta ==> agrees_in_window(
                v as int,
                min_value(old(self)@.position, depth as nat),
                alpha as int,
                beta as int,
            ),
            alpha >= beta ==> v == WHITE_WIN,
        decreases depth,
    {
        if alpha >= beta {
            return WHITE_WIN;
        }
        let moves = self.slow_enumerate_hopeful_order(Color::Black);
        if moves.len() == 0 {
            return if Board::in_check(&self.state, Color::White) {
                BLACK_WIN
            } else if Board::in_check(&self.state, Color::Black) {
                WHITE_WIN
            } else {
                0
            };
        }
        if depth == 0 {
            return self.immediate_analysis();
        }
        let ghost start = self@;
        let ghost p = self@.position;
        let ghost d = depth as nat;
        let ghost beta0 = beta as int;
        let mut beta = beta;
        let mut i: usize = 0;
        while i < moves.len() && alpha < beta
            invariant
                i <= moves@.len(),
                depth > 0,
                d == depth as nat,
                self@ == start,
                p == start.position,
                moves@ == hopeful_order(p, Color::Black),
                self.searchable(*init, depth as int),
                greater(alpha as int, lesser(beta as int, least_reply(p, moves@, i as int, d)))
                    == greater(alpha as int, lesser(beta0, least_reply(p, moves@, 0, d))),
            decreases moves@.len() - i,
        {
            let mov = moves[i];
            proof {
                lemma_hopeful_moves_valid(p, Color::Black, i as int);
                lemma_move_count(*init, self@.history);
                assert(self@.history.push(mov).drop_last() =~= self@.history);
            }
            self.make_move(mov);
            let eval = self.minmax_max_q(depth - 1, alpha, beta, init);
            self.undo(init);
            beta = if eval < beta {
                eval
            } else {
                beta
            };
            i += 1;
        }
        if alpha >= beta {
            alpha
        } else {
            beta
        }
    }

    /// The value of the position with White to move, searched `depth` plies deep within
    /// the window from `alpha` to `beta`. The board is left as it was.
    pub fn minmax_max_q(&mut self, depth: u16, alpha: i32, beta: i32, init: &InitialState) -> (v: i32)
        requires
            old(self).searchable(*init, depth as int),
        ensures
            final(self)@ == old(self)@,
            alpha < beta ==> agrees_in_window(
                v as int,
                max_value(old(self)@.position, depth as nat),
                alpha as int,
                beta as int,
            ),
            alpha >= beta ==> v == BLACK_WIN,
        decreases depth,
    {
        if alpha >= beta {
            return BLACK_WIN;
        }
        let moves = self.slow_enumerate_hopeful_order(Color::White);
        if moves.len() == 0 {
            return if Board::in_check(&self.state, Color::White) {
                BLACK_WIN
            } else if Board::in_check(&self.state, Color::Black) {
                WHITE_WIN
            } else {
                0
            };
        }
        if depth == 0 {
            return self.immediate_analysis();
        }
        let ghost start = self@;
        let ghost p = self@.position;
        let ghost d = depth as nat;
        let ghost alpha0 = alpha as int;
        let mut alpha = alpha;
        let mut i: usize = 0;
        while i < moves.len() && alpha < beta
            invariant
                i <= moves@.len(),
                depth > 0,
                d == depth as nat,
                self@ == start,
                p == start.position,
                moves@ == hopeful_order(p, Color::White),
                self.searchable(*init, depth as int),
                lesser(beta as int, greater(alpha as int, greatest_reply(p, moves@, i as int, d)))
                    == lesser(beta as int, greater(alpha0, greatest_reply(p, moves@, 0, d))),
            decreases moves@.len() - i,
        {
            let mov = moves[i];
            proof {
                lemma_hopeful_moves_valid(p, Color::White, i as int);
                lemma_move_count(*init, self@.history);
                assert(self@.history.push(mov).drop_last() =~= self@.history);
            }
            self.make_move(mov);
            let eval = self.minmax_min_q(depth - 1, alpha, beta, init);
            self.undo(init);
            alpha = if eval > alpha {
                eval
            } else {
                alpha
            };
            i += 1;
        }
        if alpha <= beta {
            alpha
        } else {
            beta
        }
    }

    /// Whether the side to move could pass without leaving its king attacked.
    pub fn can_null_move(&self) -> (b: bool)
        requires
            self.active_color != Color::Neither,
        ensures
            b == !in_check(self.state, self.active_color),
    {
        !Board::in_check(&self.state, self.active_color)
    }
}

} // verus!
