//! Facts about sequences that the enumeration and ordering of moves rest on.

use vstd::prelude::*;

verus! {

/// Filtering one element more either appends that element or changes nothing.
pub proof fn lemma_filter_take_step<A>(s: Seq<A>, pred: spec_fn(A) -> bool, i: int)
    requires
        0 <= i < s.len(),
    ensures
        s.take(i + 1).filter(pred) == (if pred(s[i]) {
            s.take(i).filter(pred).push(s[i])
        } else {
            s.take(i).filter(pred)
        }),
{
    reveal(Seq::filter);
    assert(s.take(i + 1).drop_last() =~= s.take(i));
}

/// A stretch of elements that all fail the test adds nothing to the filtered sequence.
pub proof fn lemma_filter_skip<A>(s: Seq<A>, pred: spec_fn(A) -> bool, i: int, n: int)
    requires
        0 <= i,
        0 <= n,
        i + n <= s.len(),
        forall|j: int| i <= j < i + n ==> !pred(#[trigger] s[j]),
    ensures
        s.take(i + n).filter(pred) == s.take(i).filter(pred),
    decreases n,
{
    if n > 0 {
        lemma_filter_skip(s, pred, i, n - 1);
        lemma_filter_take_step(s, pred, i + n - 1);
    }
}

/// An element is kept by a filter exactly if it occurs and passes the test.
pub proof fn lemma_filter_membership<A>(s: Seq<A>, pred: spec_fn(A) -> bool, x: A)
    ensures
        s.filter(pred).contains(x) <==> s.contains(x) && pred(x),
{
    if s.filter(pred).contains(x) {
        s.lemma_filter_contains_rev(pred, x);
        let i = choose|i: int| 0 <= i < s.filter(pred).len() && s.filter(pred)[i] == x;
        s.lemma_filter_pred(pred, i);
    }
    if s.contains(x) && pred(x) {
        let i = choose|i: int| 0 <= i < s.len() && s[i] == x;
        s.lemma_filter_contains(pred, i);
    }
}

/// Three tests of which exactly one passes wherever a fourth does, and none where it does
/// not, split what the fourth keeps: the three filtered sequences together hold what the
/// fourth filter keeps, each element as often.
pub proof fn lemma_filter_split<A>(
    s: Seq<A>,
    all: spec_fn(A) -> bool,
    first: spec_fn(A) -> bool,
    second: spec_fn(A) -> bool,
    third: spec_fn(A) -> bool,
)
    requires
        forall|x: A| #[trigger] first(x) ==> all(x) && !second(x) && !third(x),
        forall|x: A| #[trigger] second(x) ==> all(x) && !third(x),
        forall|x: A| #[trigger] third(x) ==> all(x),
        forall|x: A| #[trigger] all(x) ==> first(x) || second(x) || third(x),
    ensures
        (s.filter(first) + s.filter(second) + s.filter(third)).to_multiset() == s.filter(
            all,
        ).to_multiset(),
    decreases s.len(),
{
    broadcast use vstd::seq_lib::group_to_multiset_ensures;

    reveal(Seq::filter);
    let a = s.filter(first);
    let b = s.filter(second);
    let c = s.filter(third);
    vstd::seq_lib::lemma_multiset_commutative(a + b, c);
    vstd::seq_lib::lemma_multiset_commutative(a, b);
    if s.len() > 0 {
        let r = s.drop_last();
        lemma_filter_split(r, all, first, second, third);
        vstd::seq_lib::lemma_multiset_commutative(r.filter(first) + r.filter(second), r.filter(third));
        vstd::seq_lib::lemma_multiset_commutative(r.filter(first), r.filter(second));
    }
}

} // verus!
