//! Enumeration of the legal moves of a side, by kind, and the state of the game.

use vstd::prelude::*;
use crate::attack::in_check;
use crate::board::{at, grid_after, sq, Board, Grid, InitialState, Move, Square};
use crate::heuristics::endgame_reached::{endgame_score, in_endgame};
use crate::legality::legal;
use crate::ordering::{lemma_sort_desc_props, sort_desc, sort_descending};
use crate::piece::{Color, GameOver};
use crate::seqs::{
    lemma_filter_membership, lemma_filter_skip, lemma_filter_split, lemma_filter_take_step,
};

verus! {

/// The `i`-th square of the board, rank by rank.
pub open spec fn square_at(i: int) -> Square {
    sq(i / 8, i % 8)
}

/// The `i`-th of all moves, ordered by source square and then by target square.
pub open spec fn move_at(i: int) -> Move {
    Move { from: square_at(i / 64), to: square_at(i % 64) }
}

/// The `i`-th of all moves, ordered by target square and then by source square.
pub open spec fn move_onto_at(i: int) -> Move {
    Move { from: square_at(i % 64), to: square_at(i / 64) }
}

/// All 4096 pairs of squares, ordered by source square and then by target square.
pub open spec fn all_moves() -> Seq<Move> {
    Seq::new(4096, |i: int| move_at(i))
}

/// All 4096 pairs of squares, ordered by target square and then by source square.
pub open spec fn all_moves_by_target() -> Seq<Move> {
    Seq::new(4096, |i: int| move_onto_at(i))
}

/// The move lands on a piece of the other side.
pub open spec fn is_capture(g: Grid, m: Move, color: Color) -> bool {
    color != Color::Neither && at(g, m.to).color_of() == color.opposite()
}

/// After the move the other side's king is attacked.
pub open spec fn gives_check(g: Grid, m: Move, color: Color) -> bool {
    in_check(grid_after(g, m), color.opposite())
}

/// The test for a legal move of a side.
pub open spec fn legal_for(p: InitialState, color: Color) -> spec_fn(Move) -> bool {
    |m: Move| legal(p, m, color)
}

/// The test for a legal move that lands on an enemy piece.
pub open spec fn legal_capture_for(p: InitialState, color: Color) -> spec_fn(Move) -> bool {
    |m: Move| legal(p, m, color) && is_capture(p.state, m, color)
}

/// The test for a legal move that lands on no enemy piece.
pub open spec fn legal_noncapture_for(p: InitialState, color: Color) -> spec_fn(Move) -> bool {
    |m: Move| legal(p, m, color) && !is_capture(p.state, m, color)
}

/// The test for a legal move that gives check.
pub open spec fn checking_for(p: InitialState, color: Color) -> spec_fn(Move) -> bool {
    |m: Move| legal(p, m, color) && gives_check(p.state, m, color)
}

/// The test for a legal capture that gives no check.
pub open spec fn quiet_capture_for(p: InitialState, color: Color) -> spec_fn(Move) -> bool {
    |m: Move| legal(p, m, color) && !gives_check(p.state, m, color) && is_capture(p.state, m, color)
}

/// The test for a legal move that neither gives check nor captures.
pub open spec fn quiet_for(p: InitialState, color: Color) -> spec_fn(Move) -> bool {
    |m: Move| legal(p, m, color) && !gives_check(p.state, m, color) && !is_capture(p.state, m, color)
}

/// The legal moves of a side, ordered by source square and then by target square.
pub open spec fn legal_moves(p: InitialState, color: Color) -> Seq<Move> {
    all_moves().filter(legal_for(p, color))
}

/// The legal captures of a side, ordered by target square and then by source square.
pub open spec fn legal_captures(p: InitialState, color: Color) -> Seq<Move> {
    all_moves_by_target().filter(legal_capture_for(p, color))
}

/// The legal moves of a side that are no captures, ordered by target square and then by
/// source square.
pub open spec fn legal_noncaptures(p: InitialState, color: Color) -> Seq<Move> {
    all_moves_by_target().filter(legal_noncapture_for(p, color))
}

/// The legal moves of a side that give check, in the order of `legal_moves`.
pub open spec fn checking_moves(p: InitialState, color: Color) -> Seq<Move> {
    all_moves().filter(checking_for(p, color))
}

/// The legal captures of a side that give no check, in the order of `legal_moves`.
pub open spec fn quiet_captures(p: InitialState, color: Color) -> Seq<Move> {
    all_moves().filter(quiet_capture_for(p, color))
}

/// The legal moves of a side that neither give check nor capture, in the order of
/// `legal_moves`.
pub open spec fn quiet_moves(p: InitialState, color: Color) -> Seq<Move> {
    all_moves().filter(quiet_for(p, color))
}

/// What a capture wins at once: the worth of the piece taken less that of the piece that
/// takes.
pub open spec fn capture_gain(g: Grid) -> spec_fn(Move) -> int {
    |m: Move| at(g, m.to).base_value() - at(g, m.from).base_value()
}

/// What a move wins in placement: how well the piece stands on its target square less
/// how well it stands on its source square.
pub open spec fn placement_gain(g: Grid, endgame: int) -> spec_fn(Move) -> int {
    |m: Move|
        at(g, m.from).placement(m.to.rank as int, m.to.file as int, endgame) - at(
            g,
            m.from,
        ).placement(m.from.rank as int, m.from.file as int, endgame)
}

/// The legal moves of a side in the order in which a search should try them: first those
/// that give check, then the captures, the most winning first, then the rest, the best
/// placed first.
pub open spec fn hopeful_order(p: InitialState, color: Color) -> Seq<Move> {
    checking_moves(p, color) + sort_desc(quiet_captures(p, color), capture_gain(p.state))
        + sort_desc(quiet_moves(p, color), placement_gain(p.state, endgame_score(p.state)))
}

/// The side has no legal move at all.
pub open spec fn no_legal_move(p: InitialState, color: Color) -> bool {
    forall|m: Move| #[trigger] m.valid() ==> !legal(p, m, color)
}

/// How the game stands for the side to move: mated if it has no legal move and is in
/// check, drawn if it has no legal move and is not, running otherwise.
pub open spec fn game_status(p: InitialState) -> GameOver {
    if legal_moves(p, p.active_color).len() == 0 {
        if in_check(p.state, p.active_color) {
            GameOver::Checkmate(p.active_color)
        } else {
            GameOver::Draw
        }
    } else {
        GameOver::NotOver
    }
}

/// Every pair of squares on the board occurs among all moves, in either order.
pub proof fn lemma_all_moves_complete(m: Move)
    ensures
        all_moves().contains(m) <==> m.valid(),
        all_moves_by_target().contains(m) <==> m.valid(),
{
    if m.valid() {
        let a = m.from.rank as int * 8 + m.from.file as int;
        let b = m.to.rank as int * 8 + m.to.file as int;
        assert(all_moves()[64 * a + b] == m);
        assert(all_moves_by_target()[64 * b + a] == m);
    }
    if all_moves().contains(m) {
        let i = choose|i: int| 0 <= i < all_moves().len() && all_moves()[i] == m;
        assert(m == move_at(i));
    }
    if all_moves_by_target().contains(m) {
        let i = choose|i: int| 0 <= i < all_moves_by_target().len() && all_moves_by_target()[i] == m;
        assert(m == move_onto_at(i));
    }
}

/// The enumerated moves of a side are exactly the legal moves between squares of the
/// board.
pub proof fn lemma_legal_moves_membership(p: InitialState, color: Color, m: Move)
    ensures
        legal_moves(p, color).contains(m) <==> m.valid() && legal(p, m, color),
{
    lemma_all_moves_complete(m);
    lemma_filter_membership(all_moves(), legal_for(p, color), m);
}

/// Every move that a filter keeps of all moves is a move between squares of the board.
pub proof fn lemma_kept_moves_valid(pred: spec_fn(Move) -> bool, i: int)
    requires
        0 <= i < all_moves().filter(pred).len(),
    ensures
        all_moves().filter(pred)[i].valid(),
{
    let kept = all_moves().filter(pred);
    assert(kept.contains(kept[i]));
    lemma_filter_membership(all_moves(), pred, kept[i]);
    lemma_all_moves_complete(kept[i]);
}

/// The order in which a search tries the moves of a side is a reordering of its legal
/// moves: it holds the same moves, each as often.
pub proof fn law_hopeful_order_is_a_reordering(p: InitialState, color: Color)
    ensures
        hopeful_order(p, color).to_multiset() == legal_moves(p, color).to_multiset(),
        hopeful_order(p, color).len() == legal_moves(p, color).len(),
{
    broadcast use vstd::seq_lib::group_to_multiset_ensures;

    let checks = checking_moves(p, color);
    let caps = quiet_captures(p, color);
    let quiet = quiet_moves(p, color);
    let gain = capture_gain(p.state);
    let better = placement_gain(p.state, endgame_score(p.state));
    lemma_sort_desc_props(caps, gain);
    lemma_sort_desc_props(quiet, better);
    lemma_filter_split(
        all_moves(),
        legal_for(p, color),
        checking_for(p, color),
        quiet_capture_for(p, color),
        quiet_for(p, color),
    );
    vstd::seq_lib::lemma_multiset_commutative(checks + sort_desc(caps, gain), sort_desc(quiet, better));
    vstd::seq_lib::lemma_multiset_commutative(checks, sort_desc(caps, gain));
    vstd::seq_lib::lemma_multiset_commutative(checks + caps, quiet);
    vstd::seq_lib::lemma_multiset_commutative(checks, caps);
    assert(hopeful_order(p, color).to_multiset() =~= legal_moves(p, color).to_multiset());
    hopeful_order(p, color).to_multiset_ensures();
    legal_moves(p, color).to_multiset_ensures();
}

/// Every legal move between squares of the board is among the moves that a search
/// tries.
pub proof fn lemma_hopeful_order_complete(p: InitialState, color: Color, m: Move)
    requires
        m.valid(),
        legal(p, m, color),
    ensures
        hopeful_order(p, color).contains(m),
{
    broadcast use vstd::seq_lib::group_to_multiset_ensures;

    law_hopeful_order_is_a_reordering(p, color);
    lemma_legal_moves_membership(p, color, m);
    assert(legal_moves(p, color).to_multiset().count(m) > 0);
}

/// Every move in the order in which a search tries them is a legal move between squares
/// of the board.
pub proof fn lemma_hopeful_moves_valid(p: InitialState, color: Color, i: int)
    requires
        0 <= i < hopeful_order(p, color).len(),
    ensures
        hopeful_order(p, color)[i].valid(),
        legal(p, hopeful_order(p, color)[i], color),
{
    broadcast use vstd::seq_lib::group_to_multiset_ensures;

    let checks = checking_moves(p, color);
    let caps = quiet_captures(p, color);
    let quiet = quiet_moves(p, color);
    let sorted_caps = sort_desc(caps, capture_gain(p.state));
    let sorted_quiet = sort_desc(quiet, placement_gain(p.state, endgame_score(p.state)));
    let m = hopeful_order(p, color)[i];
    lemma_sort_desc_props(caps, capture_gain(p.state));
    lemma_sort_desc_props(quiet, placement_gain(p.state, endgame_score(p.state)));
    lemma_all_moves_complete(m);
    if i < checks.len() {
        assert(checks.contains(m)) by {
            assert(checks[i] == m);
        }
        lemma_filter_membership(all_moves(), checking_for(p, color), m);
    } else if i < checks.len() + sorted_caps.len() {
        assert(sorted_caps.contains(m)) by {
            assert(sorted_caps[i - checks.len()] == m);
        }
        assert(caps.to_multiset().count(m) > 0);
        assert(caps.contains(m));
        lemma_filter_membership(all_moves(), quiet_capture_for(p, color), m);
    } else {
        assert(sorted_quiet.contains(m)) by {
            assert(sorted_quiet[i - checks.len() - sorted_caps.len()] == m);
        }
        assert(quiet.to_multiset().count(m) > 0);
        lemma_filter_membership(all_moves(), quiet_for(p, color), m);
    }
}

/// A side has no legal move exactly if the enumeration of its moves is empty.
pub proof fn lemma_no_legal_move(p: InitialState, color: Color)
    ensures
        no_legal_move(p, color) <==> legal_moves(p, color).len() == 0,
{
    let moves = legal_moves(p, color);
    if moves.len() > 0 {
        lemma_legal_moves_membership(p, color, moves[0]);
    } else {
        assert forall|m: Move| #[trigger] m.valid() implies !legal(p, m, color) by {
            lemma_legal_moves_membership(p, color, m);
        }
    }
}

impl Board {
    /// All legal moves of a side, ordered by source square and then by target square.
    pub fn slow_enumerate_moves(&self, color: Color) -> (moves: Vec<Move>)
        ensures
            moves@ == legal_moves(self@.position, color),
    {
        let mut vec: Vec<Move> = Vec::with_capacity(50);
        let ghost all = all_moves();
        let ghost pred = legal_for(self@.position, color);
        let mut a: usize = 0;
        assert(all.take(0).filter(pred) =~= Seq::empty()) by {
            reveal(Seq::filter);
        }
        while a < 64
            invariant
                a <= 64,
                all == all_moves(),
                pred == legal_for(self@.position, color),
                vec@ == all.take(64 * a).filter(pred),
            decreases 64 - a,
        {
            let from = Square { rank: (a / 8) as u8, file: (a % 8) as u8 };
            assert(from == square_at(a as int));
            if self.piece_at(from).color() == color {
                let mut b: usize = 0;
                while b < 64
                    invariant
                        a < 64,
                        b <= 64,
                        from == square_at(a as int),
                        all == all_moves(),
                        pred == legal_for(self@.position, color),
                        vec@ == all.take(64 * a + b).filter(pred),
                    decreases 64 - b,
                {
                    let to = Square { rank: (b / 8) as u8, file: (b % 8) as u8 };
                    let mov = Move { from, to };
                    proof {
                        assert(to == square_at(b as int));
                        assert(all[64 * a + b] == mov);
                        lemma_filter_take_step(all, pred, 64 * a + b);
                    }
                    if self.check_move(mov, color) {
                        vec.push(mov);
                    }
                    b += 1;
                }
            } else {
                proof {
                    assert forall|j: int| 64 * a <= j < 64 * a + 64 implies !pred(#[trigger] all[j]) by {
                        assert(all[j].from == from);
                    }
                    lemma_filter_skip(all, pred, 64 * a, 64);
                }
            }
            a += 1;
        }
        assert(all.take(4096) =~= all);
        vec
    }

    /// All legal moves of a side that land on an enemy piece, ordered by target square
    /// and then by source square.
    pub fn slow_enumerate_captures(&self, color: Color) -> (moves: Vec<Move>)
        requires
            color != Color::Neither,
        ensures
            moves@ == legal_captures(self@.position, color),
    {
        let mut vec: Vec<Move> = Vec::with_capacity(50);
        let enemy = color.switch();
        let ghost all = all_moves_by_target();
        let ghost pred = legal_capture_for(self@.position, color);
        let mut b: usize = 0;
        assert(all.take(0).filter(pred) =~= Seq::empty()) by {
            reveal(Seq::filter);
        }
        while b < 64
            invariant
                b <= 64,
                color != Color::Neither,
                enemy == color.opposite(),
                all == all_moves_by_target(),
                pred == legal_capture_for(self@.position, color),
                vec@ == all.take(64 * b).filter(pred),
            decreases 64 - b,
        {
            let to = Square { rank: (b / 8) as u8, file: (b % 8) as u8 };
            assert(to == square_at(b as int));
            if self.piece_at(to).color() == enemy {
                let mut a: usize = 0;
                while a < 64
                    invariant
                        b < 64,
                        a <= 64,
                        to == square_at(b as int),
                        at(self.state, to).color_of() == color.opposite(),
                        color != Color::Neither,
                        all == all_moves_by_target(),
                        pred == legal_capture_for(self@.position, color),
                        vec@ == all.take(64 * b + a).filter(pred),
                    decreases 64 - a,
                {
                    let from = Square { rank: (a / 8) as u8, file: (a % 8) as u8 };
                    let mov = Move { from, to };
                    proof {
                        assert(from == square_at(a as int));
                        assert(all[64 * b + a] == mov);
                        lemma_filter_take_step(all, pred, 64 * b + a);
                    }
                    if self.check_move(mov, color) {
                        vec.push(mov);
                    }
                    a += 1;
                }
            } else {
                proof {
                    assert forall|j: int| 64 * b <= j < 64 * b + 64 implies !pred(#[trigger] all[j]) by {
                        assert(all[j].to == to);
                    }
                    lemma_filter_skip(all, pred, 64 * b, 64);
                }
            }
            b += 1;
        }
        assert(all.take(4096) =~= all);
        vec
    }

    /// All legal moves of a side that land on no enemy piece, ordered by target square
    /// and then by source square.
    pub fn slow_enumerate_noncaptures(&self, color: Color) -> (moves: Vec<Move>)
        requires
            color != Color::Neither,
        ensures
            moves@ == legal_noncaptures(self@.position, color),
    {
        let mut vec: Vec<Move> = Vec::with_capacity(50);
        let enemy = color.switch();
        let ghost all = all_moves_by_target();
        let ghost pred = legal_noncapture_for(self@.position, color);
        let mut b: usize = 0;
        assert(all.take(0).filter(pred) =~= Seq::empty()) by {
            reveal(Seq::filter);
        }
        while b < 64
            invariant
                b <= 64,
                color != Color::Neither,
                enemy == color.opposite(),
                all == all_moves_by_target(),
                pred == legal_noncapture_for(self@.position, color),
                vec@ == all.take(64 * b).filter(pred),
            decreases 64 - b,
        {
            let to = Square { rank: (b / 8) as u8, file: (b % 8) as u8 };
            assert(to == square_at(b as int));
            if !(self.piece_at(to).color() == enemy) {
                let mut a: usize = 0;
                while a < 64
                    invariant
                        b < 64,
                        a <= 64,
                        to == square_at(b as int),
                        at(self.state, to).color_of() != color.opposite(),
                        color != Color::Neither,
                        all == all_moves_by_target(),
                        pred == legal_noncapture_for(self@.position, color),
                        vec@ == all.take(64 * b + a).filter(pred),
                    decreases 64 - a,
                {
                    let from = Square { rank: (a / 8) as u8, file: (a % 8) as u8 };
                    let mov = Move { from, to };
                    proof {
                        assert(from == square_at(a as int));
                        assert(all[64 * b + a] == mov);
                        lemma_filter_take_step(all, pred, 64 * b + a);
                    }
                    if self.check_move(mov, color) {
                        vec.push(mov);
                    }
                    a += 1;
                }
            } else {
                proof {
                    assert forall|j: int| 64 * b <= j < 64 * b + 64 implies !pred(#[trigger] all[j]) by {
                        assert(all[j].to == to);
                    }
                    lemma_filter_skip(all, pred, 64 * b, 64);
                }
            }
            b += 1;
        }
        assert(all.take(4096) =~= all);
        vec
    }

    /// The legal moves of a side in three groups: those that give check, the captures
    /// among the rest, and all others; each ordered by source square and then by target
    /// square.
    pub fn slow_enumerate_categories(&self, color: Color) -> (groups: (Vec<Move>, Vec<Move>, Vec<Move>))
        requires
            color != Color::Neither,
        ensures
            groups.0@ == checking_moves(self@.position, color),
            groups.1@ == quiet_captures(self@.position, color),
            groups.2@ == quiet_moves(self@.position, color),
    {
        let mut checks: Vec<Move> = Vec::with_capacity(10);
        let mut captures: Vec<Move> = Vec::with_capacity(20);
        let mut other: Vec<Move> = Vec::with_capacity(50);
        let other_color = color.switch();
        let ghost all = all_moves();
        let ghost p = self@.position;
        let mut a: usize = 0;
        proof {
            reveal(Seq::filter);
            assert(all.take(0).filter(checking_for(p, color)) =~= Seq::empty());
            assert(all.take(0).filter(quiet_capture_for(p, color)) =~= Seq::empty());
            assert(all.take(0).filter(quiet_for(p, color)) =~= Seq::empty());
        }
        while a < 64
            invariant
                a <= 64,
                color != Color::Neither,
                other_color == color.opposite(),
                all == all_moves(),
                p == self@.position,
                checks@ == all.take(64 * a).filter(checking_for(p, color)),
                captures@ == all.take(64 * a).filter(quiet_capture_for(p, color)),
                other@ == all.take(64 * a).filter(quiet_for(p, color)),
            decreases 64 - a,
        {
            let from = Square { rank: (a / 8) as u8, file: (a % 8) as u8 };
            assert(from == square_at(a as int));
            if self.piece_at(from).color() == color {
                let mut b: usize = 0;
                while b < 64
                    invariant
                        a < 64,
                        b <= 64,
                        from == square_at(a as int),
                        color != Color::Neither,
                        other_color == color.opposite(),
                        all == all_moves(),
                        p == self@.position,
                        checks@ == all.take(64 * a + b).filter(checking_for(p, color)),
                        captures@ == all.take(64 * a + b).filter(quiet_capture_for(p, color)),
                        other@ == all.take(64 * a + b).filter(quiet_for(p, color)),
                    decreases 64 - b,
                {
                    let to = Square { rank: (b / 8) as u8, file: (b % 8) as u8 };
                    let mov = Move { from, to };
                    proof {
                        assert(to == square_at(b as int));
                        assert(all[64 * a + b] == mov);
                        lemma_filter_take_step(all, checking_for(p, color), 64 * a + b);
                        lemma_filter_take_step(all, quiet_capture_for(p, color), 64 * a + b);
                        lemma_filter_take_step(all, quiet_for(p, color), 64 * a + b);
                    }
                    if self.check_move(mov, color) {
                        let capture = self.piece_at(to).color() == other_color;
                        let after = self.simulate(mov);
                        if Board::in_check(&after, other_color) {
                            checks.push(mov);
                        } else if capture {
                            captures.push(mov);
                        } else {
                            other.push(mov);
                        }
                    }
                    b += 1;
                }
            } else {
                proof {
                    assert forall|j: int| 64 * a <= j < 64 * a + 64 implies !legal(p, #[trigger] all[j], color) by {
                        assert(all[j].from == from);
                    }
                    lemma_filter_skip(all, checking_for(p, color), 64 * a, 64);
                    lemma_filter_skip(all, quiet_capture_for(p, color), 64 * a, 64);
                    lemma_filter_skip(all, quiet_for(p, color), 64 * a, 64);
                }
            }
            a += 1;
        }
        assert(all.take(4096) =~= all);
        (checks, captures, other)
    }

    /// The legal moves of a side in the order in which a search should try them.
    pub fn slow_enumerate_hopeful_order(&self, color: Color) -> (moves: Vec<Move>)
        requires
            color != Color::Neither,
        ensures
            moves@ == hopeful_order(self@.position, color),
    {
        let (mut checks, captures, noncaptures) = self.slow_enumerate_categories(color);
        let ghost p = self@.position;
        let ghost gain = capture_gain(self.state);
        let mut gains: Vec<i32> = Vec::with_capacity(captures.len());
        let mut i: usize = 0;
        while i < captures.len()
            invariant
                i <= captures@.len(),
                p == self@.position,
                gain == capture_gain(self.state),
                captures@ == quiet_captures(p, color),
                gains@.len() == i,
                forall|j: int| 0 <= j < i ==> #[trigger] gains@[j] == gain(captures@[j]),
            decreases captures@.len() - i,
        {
            proof {
                lemma_kept_moves_valid(quiet_capture_for(p, color), i as int);
            }
            let g = self.mat_diff(&captures[i]);
            gains.push(g);
            i += 1;
        }
        let mut sorted_captures = sort_descending(&captures, &gains, Ghost(gain));

        let endgame = in_endgame(&self.state);
        let ghost better = placement_gain(self.state, endgame as int);
        let mut betters: Vec<i32> = Vec::with_capacity(noncaptures.len());
        let mut i: usize = 0;
        while i < noncaptures.len()
            invariant
                i <= noncaptures@.len(),
                p == self@.position,
                0 <= endgame <= 100,
                better == placement_gain(self.state, endgame as int),
                noncaptures@ == quiet_moves(p, color),
                betters@.len() == i,
                forall|j: int| 0 <= j < i ==> #[trigger] betters@[j] == better(noncaptures@[j]),
            decreases noncaptures@.len() - i,
        {
            proof {
                lemma_kept_moves_valid(quiet_for(p, color), i as int);
            }
            let b = self.happiness_diff(&noncaptures[i], endgame);
            betters.push(b);
            i += 1;
        }
        let mut sorted_noncaptures = sort_descending(&noncaptures, &betters, Ghost(better));
        checks.append(&mut sorted_captures);
        checks.append(&mut sorted_noncaptures);
        checks
    }

    /// What the move wins in placement for the piece that makes it.
    pub fn happiness_diff(&self, mov: &Move, endgame: i32) -> (v: i32)
        requires
            mov.valid(),
            0 <= endgame <= 100,
        ensures
            v == placement_gain(self.state, endgame as int)(*mov),
            -100 <= v <= 100,
    {
        self.piece_at(mov.from).happiness_at(mov.to, endgame) - self.piece_at(
            mov.from,
        ).happiness_at(mov.from, endgame)
    }

    /// The worth of the piece on the move's target square less that of the piece moved.
    pub fn mat_diff(&self, mov: &Move) -> (v: i32)
        requires
            mov.valid(),
        ensures
            v == capture_gain(self.state)(*mov),
            -200000 <= v <= 200000,
    {
        self.piece_at(mov.to).material_eval_base() - self.piece_at(mov.from).material_eval_base()
    }

    /// How the game stands for the side to move.
    pub fn game_over(&self) -> (status: GameOver)
        requires
            self.active_color != Color::Neither,
        ensures
            status == game_status(self@.position),
            status == GameOver::Checkmate(self.active_color) <==> no_legal_move(
                self@.position,
                self.active_color,
            ) && in_check(self.state, self.active_color),
            status == GameOver::Draw <==> no_legal_move(self@.position, self.active_color)
                && !in_check(self.state, self.active_color),
            status == GameOver::NotOver <==> !no_legal_move(self@.position, self.active_color),
    {
        proof {
            lemma_no_legal_move(self@.position, self.active_color);
        }
        if self.slow_enumerate_moves(self.active_color).len() == 0 {
            if Board::in_check(&self.state, self.active_color) {
                GameOver::Checkmate(self.active_color)
            } else {
                GameOver::Draw
            }
        } else {
            GameOver::NotOver
        }
    }
}

} // verus!
