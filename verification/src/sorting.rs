//! Stable insertion sorting, specified over sequences: an element is placed
//! before the first entry it strictly precedes, so equals keep their order.

use vstd::prelude::*;

verus! {

/// `s` with `x` inserted before the first entry that `x` strictly precedes
/// under `lt`; an element equal under the order goes after it.
pub open spec fn spec_insert_by<T>(s: Seq<T>, x: T, lt: spec_fn(T, T) -> bool) -> Seq<T>
    decreases s.len(),
{
    if s.len() == 0 {
        seq![x]
    } else if lt(x, s[0]) {
        seq![x] + s
    } else {
        seq![s[0]] + spec_insert_by(s.drop_first(), x, lt)
    }
}

/// The stable sort of `s` under `lt`: each element in turn is inserted
/// after the entries it does not strictly precede.
pub open spec fn spec_sort_by<T>(s: Seq<T>, lt: spec_fn(T, T) -> bool) -> Seq<T>
    decreases s.len(),
{
    if s.len() == 0 {
        Seq::empty()
    } else {
        spec_insert_by(spec_sort_by(s.drop_last(), lt), s.last(), lt)
    }
}

/// Where the scan for the insertion point stops, the inserted sequence is
/// the two halves around the new element.
pub proof fn lemma_insert_by_at<T>(s: Seq<T>, x: T, lt: spec_fn(T, T) -> bool, p: int)
    requires
        0 <= p <= s.len(),
        forall|j: int| 0 <= j < p ==> !lt(x, #[trigger] s[j]),
        p < s.len() ==> lt(x, s[p]),
    ensures
        spec_insert_by(s, x, lt) == s.take(p) + seq![x] + s.skip(p),
    decreases s.len(),
{
    if s.len() == 0 {
        assert(spec_insert_by(s, x, lt) =~= s.take(p) + seq![x] + s.skip(p));
    } else if p == 0 {
        assert(spec_insert_by(s, x, lt) =~= s.take(0) + seq![x] + s.skip(0));
    } else {
        assert(!lt(x, s[0]));
        lemma_insert_by_at(s.drop_first(), x, lt, p - 1);
        assert(s.drop_first().take(p - 1) =~= s.take(p).drop_first());
        assert(s.drop_first().skip(p - 1) =~= s.skip(p));
        assert(seq![s[0]] + (s.drop_first().take(p - 1) + seq![x] + s.drop_first().skip(p - 1))
            =~= s.take(p) + seq![x] + s.skip(p));
    }
}

/// Inserts an element at a position, stating the effect on the deep view.
pub fn insert_dv<T: DeepView>(v: &mut Vec<T>, p: usize, item: T)
    requires
        p <= old(v)@.len(),
    ensures
        final(v)@ == old(v)@.insert(p as int, item),
        final(v).deep_view() == old(v).deep_view().insert(p as int, item.deep_view()),
{
    let ghost prevseq = v@;
    let ghost prevdv = v.deep_view();
    v.insert(p, item);
    proof {
        assert(prevdv.len() == prevseq.len());
        assert forall|j: int| 0 <= j < v@.len() implies #[trigger] v.deep_view()[j]
            == prevdv.insert(p as int, item.deep_view())[j] by {
            assert(v@ == prevseq.insert(p as int, item));
            assert(v@[j] == prevseq.insert(p as int, item)[j]);
            if j < p {
                assert(prevseq.insert(p as int, item)[j] == prevseq[j]);
                assert(prevdv[j] == prevseq[j].deep_view());
            } else if j == p {
                assert(prevseq.insert(p as int, item)[j] == item);
            } else {
                assert(prevseq.insert(p as int, item)[j] == prevseq[j - 1]);
                assert(prevdv[j - 1] == prevseq[j - 1].deep_view());
            }
        }
        assert(v.deep_view() =~= prevdv.insert(p as int, item.deep_view()));
    }
}

/// Sorting what grew by one element on the right is one more insertion.
pub proof fn lemma_sort_by_push<T>(s: Seq<T>, x: T, lt: spec_fn(T, T) -> bool)
    ensures
        spec_sort_by(s.push(x), lt) == spec_insert_by(spec_sort_by(s, lt), x, lt),
{
    assert(s.push(x).drop_last() =~= s);
    assert(s.push(x).last() == x);
}

/// The first element satisfying `pred`, scanning left to right.
pub open spec fn spec_first_match(
    items: Seq<Seq<char>>,
    pred: spec_fn(Seq<char>) -> bool,
) -> Option<Seq<char>>
    decreases items.len(),
{
    if items.len() == 0 {
        None
    } else if pred(items[0]) {
        Some(items[0])
    } else {
        spec_first_match(items.drop_first(), pred)
    }
}

/// Where a scan stops at the first satisfying element, that is the result.
pub proof fn lemma_first_match_at(
    items: Seq<Seq<char>>,
    pred: spec_fn(Seq<char>) -> bool,
    i: int,
)
    requires
        0 <= i < items.len(),
        pred(items[i]),
        forall|j: int| 0 <= j < i ==> !pred(#[trigger] items[j]),
    ensures
        spec_first_match(items, pred) == Some(items[i]),
    decreases items.len(),
{
    if i > 0 {
        lemma_first_match_at(items.drop_first(), pred, i - 1);
    }
}

/// Where no element satisfies the predicate, the scan yields nothing.
pub proof fn lemma_first_match_none(items: Seq<Seq<char>>, pred: spec_fn(Seq<char>) -> bool)
    requires
        forall|j: int| 0 <= j < items.len() ==> !pred(#[trigger] items[j]),
    ensures
        spec_first_match(items, pred) is None,
    decreases items.len(),
{
    if items.len() > 0 {
        lemma_first_match_none(items.drop_first(), pred);
    }
}

/// The first answer that `f` gives on any element, scanning left to right.
pub open spec fn spec_first_some<T>(
    items: Seq<T>,
    f: spec_fn(T) -> Option<Seq<char>>,
) -> Option<Seq<char>>
    decreases items.len(),
{
    if items.len() == 0 {
        None
    } else {
        match f(items[0]) {
            Some(v) => Some(v),
            None => spec_first_some(items.drop_first(), f),
        }
    }
}

/// Where a scan stops at the first element with an answer, that answers.
pub proof fn lemma_first_some_at<T>(items: Seq<T>, f: spec_fn(T) -> Option<Seq<char>>, i: int)
    requires
        0 <= i < items.len(),
        f(items[i]) is Some,
        forall|j: int| 0 <= j < i ==> f(#[trigger] items[j]) is None,
    ensures
        spec_first_some(items, f) == f(items[i]),
    decreases items.len(),
{
    if i > 0 {
        lemma_first_some_at(items.drop_first(), f, i - 1);
    }
}

/// Where no element has an answer, the scan yields nothing.
pub proof fn lemma_first_some_none<T>(items: Seq<T>, f: spec_fn(T) -> Option<Seq<char>>)
    requires
        forall|j: int| 0 <= j < items.len() ==> f(#[trigger] items[j]) is None,
    ensures
        spec_first_some(items, f) is None,
    decreases items.len(),
{
    if items.len() > 0 {
        lemma_first_some_none(items.drop_first(), f);
    }
}

} // verus!
