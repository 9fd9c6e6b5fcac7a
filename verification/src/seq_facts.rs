//! Small general facts about sequence filtering that the store and the
//! filesystem model both lean on.

use vstd::prelude::*;

verus! {

/// `filter` of a pushed sequence, written out as one step.
pub proof fn lemma_filter_push<T>(s: Seq<T>, x: T, pred: spec_fn(T) -> bool)
    ensures
        s.push(x).filter(pred) == if pred(x) {
            s.filter(pred).push(x)
        } else {
            s.filter(pred)
        },
{
    reveal(Seq::filter);
    assert(s.push(x).drop_last() =~= s);
    assert(s.push(x).last() == x);
}

/// Every element that `filter` keeps was an element of the source.
pub proof fn lemma_filter_elements<T>(s: Seq<T>, pred: spec_fn(T) -> bool)
    ensures
        forall|i: int| 0 <= i < s.filter(pred).len() ==> s.contains(#[trigger] s.filter(pred)[i]),
    decreases s.len(),
{
    reveal(Seq::filter);
    if s.len() > 0 {
        let dl = s.drop_last();
        lemma_filter_elements(dl, pred);
        assert forall|i: int| 0 <= i < s.filter(pred).len() implies s.contains(
            #[trigger] s.filter(pred)[i],
        ) by {
            if pred(s.last()) && i == s.filter(pred).len() - 1 {
                assert(s[s.len() - 1] == s.filter(pred)[i]);
            } else {
                assert(dl.contains(dl.filter(pred)[i]));
                let k = choose|k: int| 0 <= k < dl.len() && dl[k] == dl.filter(pred)[i];
                assert(s[k] == s.filter(pred)[i]);
            }
        }
    }
}

/// An ordered pairwise relation survives filtering: `filter` keeps elements
/// in their original order and drops nothing into between.
pub proof fn lemma_filter_preserves_pairwise<T>(
    s: Seq<T>,
    pred: spec_fn(T) -> bool,
    related: spec_fn(T, T) -> bool,
)
    requires
        forall|k: int, l: int| 0 <= k < l < s.len() ==> related(#[trigger] s[k], #[trigger] s[l]),
    ensures
        forall|i: int, j: int|
            0 <= i < j < s.filter(pred).len() ==> related(
                #[trigger] s.filter(pred)[i],
                #[trigger] s.filter(pred)[j],
            ),
    decreases s.len(),
{
    reveal(Seq::filter);
    if s.len() > 0 {
        let dl = s.drop_last();
        lemma_filter_preserves_pairwise(dl, pred, related);
        lemma_filter_elements(dl, pred);
        assert forall|i: int, j: int| 0 <= i < j < s.filter(pred).len() implies related(
            #[trigger] s.filter(pred)[i],
            #[trigger] s.filter(pred)[j],
        ) by {
            if pred(s.last()) && j == s.filter(pred).len() - 1 {
                assert(dl.contains(dl.filter(pred)[i]));
                let k = choose|k: int| 0 <= k < dl.len() && dl[k] == dl.filter(pred)[i];
                assert(related(s[k], s[s.len() - 1]));
            }
        }
    }
}

/// A filter that keeps every element is the identity.
pub proof fn lemma_filter_all<T>(s: Seq<T>, pred: spec_fn(T) -> bool)
    requires
        forall|i: int| 0 <= i < s.len() ==> pred(#[trigger] s[i]),
    ensures
        s.filter(pred) == s,
    decreases s.len(),
{
    reveal(Seq::filter);
    if s.len() > 0 {
        lemma_filter_all(s.drop_last(), pred);
        assert(s.drop_last().push(s.last()) =~= s);
    }
}

/// A filter that keeps no element yields the empty sequence.
pub proof fn lemma_filter_none<T>(s: Seq<T>, pred: spec_fn(T) -> bool)
    requires
        forall|i: int| 0 <= i < s.len() ==> !pred(#[trigger] s[i]),
    ensures
        s.filter(pred) == Seq::<T>::empty(),
    decreases s.len(),
{
    reveal(Seq::filter);
    if s.len() > 0 {
        lemma_filter_none(s.drop_last(), pred);
    } else {
        assert(s.filter(pred) =~= Seq::<T>::empty());
    }
}

/// Filtering by a weaker predicate first does not change a filter.
pub proof fn lemma_filter_implied<T>(s: Seq<T>, p1: spec_fn(T) -> bool, p2: spec_fn(T) -> bool)
    requires
        forall|x: T| #[trigger] p2(x) ==> p1(x),
    ensures
        s.filter(p1).filter(p2) == s.filter(p2),
    decreases s.len(),
{
    reveal(Seq::filter);
    if s.len() > 0 {
        lemma_filter_implied(s.drop_last(), p1, p2);
        if p1(s.last()) {
            assert(s.drop_last().filter(p1).push(s.last()).drop_last() =~= s.drop_last().filter(
                p1,
            ));
        }
    }
}

} // verus!
