//! Facts about filtered sequences.

use vstd::prelude::*;

verus! {

/// Filtering a sequence with one more element keeps the element or not, and
/// changes nothing in what becomes of the others.
pub proof fn lemma_filter_push<A>(s: Seq<A>, x: A, pred: spec_fn(A) -> bool)
    ensures
        s.push(x).filter(pred) == if pred(x) {
            s.filter(pred).push(x)
        } else {
            s.filter(pred)
        },
{
    reveal(Seq::filter);
    assert(s.push(x).drop_last() =~= s);
}

/// Where the first `k` elements of a sequence fail a test and the next one
/// passes it, that one is the first of the sequence that passes.
pub proof fn lemma_first_kept<A>(s: Seq<A>, k: int, test: spec_fn(A) -> bool)
    requires
        0 <= k < s.len(),
        s.take(k).filter(test).len() == 0,
        test(s[k]),
    ensures
        s.filter(test).len() > 0,
        s.filter(test)[0] == s[k],
{
    assert(s =~= s.take(k) + s.skip(k));
    Seq::filter_distributes_over_add(s.take(k), s.skip(k), test);
    let tail = s.skip(k);
    assert(tail =~= seq![s[k]] + tail.skip(1));
    Seq::filter_distributes_over_add(seq![s[k]], tail.skip(1), test);
    assert(seq![s[k]].filter(test) =~= seq![s[k]]) by {
        reveal(Seq::filter);
        assert(seq![s[k]].drop_last() =~= Seq::<A>::empty());
    }
    assert(s.take(k).filter(test) =~= Seq::<A>::empty());
}

/// Where an element of a sequence passes a test, something is left when
/// the sequence is filtered by it.
pub proof fn lemma_filter_one<A>(s: Seq<A>, a: int, test: spec_fn(A) -> bool)
    requires
        0 <= a < s.len(),
        test(s[a]),
    ensures
        s.filter(test).len() >= 1,
    decreases s.len(),
{
    reveal(Seq::filter);
    if a < s.len() - 1 {
        lemma_filter_one(s.drop_last(), a, test);
    }
}

/// Where two elements of a sequence pass a test, two or more are left when
/// the sequence is filtered by it.
pub proof fn lemma_filter_two<A>(s: Seq<A>, a: int, b: int, test: spec_fn(A) -> bool)
    requires
        0 <= a < b < s.len(),
        test(s[a]),
        test(s[b]),
    ensures
        s.filter(test).len() >= 2,
    decreases s.len(),
{
    reveal(Seq::filter);
    if b < s.len() - 1 {
        lemma_filter_two(s.drop_last(), a, b, test);
    } else {
        lemma_filter_one(s.drop_last(), a, test);
    }
}

} // verus!
