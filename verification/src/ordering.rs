//! Ordering moves by a score, best first.

use vstd::prelude::*;
use crate::board::Move;

verus! {

/// The sequence `sorted` with `m` put behind the last move whose score is at least that
/// of `m`, or in front if there is none.
pub open spec fn insert_desc(sorted: Seq<Move>, m: Move, score: spec_fn(Move) -> int) -> Seq<Move>
    decreases sorted.len(),
{
    if sorted.len() == 0 {
        seq![m]
    } else if score(sorted.last()) >= score(m) {
        sorted.push(m)
    } else {
        insert_desc(sorted.drop_last(), m, score).push(sorted.last())
    }
}

/// The moves ordered by falling score; moves of equal score keep their order.
pub open spec fn sort_desc(s: Seq<Move>, score: spec_fn(Move) -> int) -> Seq<Move>
    decreases s.len(),
{
    if s.len() == 0 {
        s
    } else {
        insert_desc(sort_desc(s.drop_last(), score), s.last(), score)
    }
}

/// The scores fall, or stay, from each move to the next.
pub open spec fn is_descending(s: Seq<Move>, score: spec_fn(Move) -> int) -> bool {
    forall|i: int, j: int| 0 <= i < j < s.len() ==> score(#[trigger] s[i]) >= score(#[trigger] s[j])
}

/// Putting a move in by score is putting it in at the place behind which all scores are
/// smaller and before which the score is not.
pub proof fn lemma_insert_desc_at(s: Seq<Move>, m: Move, score: spec_fn(Move) -> int, pos: int)
    requires
        0 <= pos <= s.len(),
        forall|j: int| pos <= j < s.len() ==> score(#[trigger] s[j]) < score(m),
        pos > 0 ==> score(s[pos - 1]) >= score(m),
    ensures
        insert_desc(s, m, score) == s.insert(pos, m),
    decreases s.len() - pos,
{
    if s.len() == 0 {
    } else if pos == s.len() {
    } else {
        lemma_insert_desc_at(s.drop_last(), m, score, pos);
    }
}

/// Putting a move into a descending sequence by score leaves it descending, one longer,
/// and holding the same moves and the new one.
pub proof fn lemma_insert_desc_props(s: Seq<Move>, m: Move, score: spec_fn(Move) -> int)
    requires
        is_descending(s, score),
    ensures
        is_descending(insert_desc(s, m, score), score),
        insert_desc(s, m, score).len() == s.len() + 1,
        insert_desc(s, m, score).to_multiset() == s.to_multiset().insert(m),
    decreases s.len(),
{
    broadcast use vstd::seq_lib::group_to_multiset_ensures;

    let r = insert_desc(s, m, score);
    if s.len() == 0 {
    } else if score(s.last()) >= score(m) {
    } else {
        let rest = s.drop_last();
        assert(is_descending(rest, score)) by {
            assert forall|i: int, j: int| 0 <= i < j < rest.len() implies score(#[trigger] rest[i])
                >= score(#[trigger] rest[j]) by {}
        }
        lemma_insert_desc_props(rest, m, score);
        let inner = insert_desc(rest, m, score);
        assert(s =~= rest.push(s.last()));
        assert forall|i: int, j: int| 0 <= i < j < r.len() implies score(#[trigger] r[i]) >= score(
            #[trigger] r[j],
        ) by {
            if j == inner.len() {
                // every move of `inner` is `m` or a move of `rest`
                assert(inner.to_multiset().count(r[i]) > 0);
                if r[i] != m {
                    let k = choose|k: int| 0 <= k < rest.len() && rest[k] == r[i];
                }
            }
        }
    }
}

/// Ordering by score gives a descending sequence that holds the same moves, each as often
/// as before.
pub proof fn lemma_sort_desc_props(s: Seq<Move>, score: spec_fn(Move) -> int)
    ensures
        is_descending(sort_desc(s, score), score),
        sort_desc(s, score).len() == s.len(),
        sort_desc(s, score).to_multiset() == s.to_multiset(),
    decreases s.len(),
{
    broadcast use vstd::seq_lib::group_to_multiset_ensures;

    if s.len() > 0 {
        lemma_sort_desc_props(s.drop_last(), score);
        lemma_insert_desc_props(sort_desc(s.drop_last(), score), s.last(), score);
        assert(s =~= s.drop_last().push(s.last()));
    }
}

/// Orders the moves by falling score, where `scores` holds the score of each move; moves
/// of equal score keep their order.
pub(crate) fn sort_descending(moves: &Vec<Move>, scores: &Vec<i32>, Ghost(score): Ghost<spec_fn(Move) -> int>) -> (sorted: Vec<Move>)
    requires
        moves@.len() == scores@.len(),
        forall|i: int| 0 <= i < moves@.len() ==> #[trigger] scores@[i] == score(moves@[i]),
    ensures
        sorted@ == sort_desc(moves@, score),
{
    let mut out: Vec<Move> = Vec::with_capacity(moves.len());
    let mut out_scores: Vec<i32> = Vec::with_capacity(moves.len());
    let mut i: usize = 0;
    while i < moves.len()
        invariant
            i <= moves@.len(),
            moves@.len() == scores@.len(),
            forall|j: int| 0 <= j < moves@.len() ==> #[trigger] scores@[j] == score(moves@[j]),
            out@ == sort_desc(moves@.take(i as int), score),
            out_scores@.len() == out@.len(),
            out@.len() == i,
            forall|j: int| 0 <= j < out@.len() ==> #[trigger] out_scores@[j] == score(out@[j]),
        decreases moves@.len() - i,
    {
        let m = moves[i];
        let k = scores[i];
        let mut pos: usize = out.len();
        while pos > 0 && out_scores[pos - 1] < k
            invariant
                pos <= out@.len(),
                out_scores@.len() == out@.len(),
                k == score(m),
                forall|j: int| 0 <= j < out@.len() ==> #[trigger] out_scores@[j] == score(out@[j]),
                forall|j: int| pos <= j < out@.len() ==> score(#[trigger] out@[j]) < score(m),
            decreases pos,
        {
            pos -= 1;
        }
        proof {
            lemma_insert_desc_at(out@, m, score, pos as int);
            assert(moves@.take(i + 1).drop_last() =~= moves@.take(i as int));
        }
        out.insert(pos, m);
        out_scores.insert(pos, k);
        i += 1;
    }
    assert(moves@.take(moves@.len() as int) =~= moves@);
    out
}

} // verus!
