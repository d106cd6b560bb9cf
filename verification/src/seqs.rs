//! Facts about filtered sequences that the laws of the store rest on.

use vstd::prelude::*;

verus! {

/// A filter keeps a sequence whole where every element passes.
pub proof fn lemma_filter_all<A>(s: Seq<A>, pred: spec_fn(A) -> bool)
    requires
        forall|i: int| 0 <= i < s.len() ==> pred(#[trigger] s[i]),
    ensures
        s.filter(pred) == s,
    decreases s.len(),
{
    reveal(Seq::filter);
    if s.len() > 0 {
        lemma_filter_all(s.drop_last(), pred);
        assert(s == s.drop_last().push(s.last()));
    }
}

/// A filter leaves nothing where no element passes.
pub proof fn lemma_filter_none<A>(s: Seq<A>, pred: spec_fn(A) -> bool)
    requires
        forall|i: int| 0 <= i < s.len() ==> !pred(#[trigger] s[i]),
    ensures
        s.filter(pred) == Seq::<A>::empty(),
    decreases s.len(),
{
    reveal(Seq::filter);
    if s.len() > 0 {
        lemma_filter_none(s.drop_last(), pred);
    }
}

/// The filter of two sequences in a row is the two filters in a row.
pub proof fn lemma_filter_add<A>(a: Seq<A>, b: Seq<A>, pred: spec_fn(A) -> bool)
    ensures
        (a + b).filter(pred) == a.filter(pred) + b.filter(pred),
{
    Seq::filter_distributes_over_add(a, b, pred);
}

/// A second filter that is the stricter of two makes the first one needless.
pub proof fn lemma_filter_twice<A>(s: Seq<A>, first: spec_fn(A) -> bool, second: spec_fn(A) -> bool)
    requires
        forall|x: A| #[trigger] second(x) ==> first(x),
    ensures
        s.filter(first).filter(second) == s.filter(second),
    decreases s.len(),
{
    reveal(Seq::filter);
    if s.len() > 0 {
        lemma_filter_twice(s.drop_last(), first, second);
        s.drop_last().filter(first).lemma_filter_push(s.last(), second);
    }
}

/// Taking out an element that does not pass leaves the filter as it was.
pub proof fn lemma_filter_remove_outside<A>(s: Seq<A>, pred: spec_fn(A) -> bool, i: int)
    requires
        0 <= i < s.len(),
        !pred(s[i]),
    ensures
        s.remove(i).filter(pred) == s.filter(pred),
    decreases s.len(),
{
    reveal(Seq::filter);
    if i == s.len() - 1 {
        assert(s.remove(i) == s.drop_last());
    } else {
        lemma_filter_remove_outside(s.drop_last(), pred, i);
        assert(s.remove(i) == s.drop_last().remove(i).push(s.last()));
        s.drop_last().remove(i).lemma_filter_push(s.last(), pred);
    }
}

/// Taking out an element that passes takes that element out of the filter.
pub proof fn lemma_filter_remove_inside<A>(s: Seq<A>, pred: spec_fn(A) -> bool, i: int) -> (j: int)
    requires
        0 <= i < s.len(),
        pred(s[i]),
    ensures
        0 <= j < s.filter(pred).len(),
        s.filter(pred)[j] == s[i],
        s.remove(i).filter(pred) == s.filter(pred).remove(j),
    decreases s.len(),
{
    reveal(Seq::filter);
    if i == s.len() - 1 {
        assert(s.remove(i) == s.drop_last());
        let j = s.drop_last().filter(pred).len() as int;
        assert(s.filter(pred).remove(j) == s.drop_last().filter(pred));
        j
    } else {
        let j = lemma_filter_remove_inside(s.drop_last(), pred, i);
        assert(s.remove(i) == s.drop_last().remove(i).push(s.last()));
        s.drop_last().remove(i).lemma_filter_push(s.last(), pred);
        if pred(s.last()) {
            assert(s.drop_last().filter(pred).push(s.last()).remove(j) == s.drop_last().filter(
                pred,
            ).remove(j).push(s.last()));
        }
        j
    }
}

/// Two filters that agree on every element of a sequence keep the same.
pub proof fn lemma_filter_same<A>(s: Seq<A>, first: spec_fn(A) -> bool, second: spec_fn(A) -> bool)
    requires
        forall|i: int| 0 <= i < s.len() ==> first(#[trigger] s[i]) == second(s[i]),
    ensures
        s.filter(first) == s.filter(second),
    decreases s.len(),
{
    reveal(Seq::filter);
    if s.len() > 0 {
        assert forall|i: int| 0 <= i < s.drop_last().len() implies first(
            #[trigger] s.drop_last()[i],
        ) == second(s.drop_last()[i]) by {
            assert(s.drop_last()[i] == s[i]);
        }
        lemma_filter_same(s.drop_last(), first, second);
        assert(first(s[s.len() - 1]) == second(s[s.len() - 1]));
    }
}

} // verus!
