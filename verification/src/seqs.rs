//! General lemmas about `Seq::filter` that the state modules share:
//! how filtering interacts with pushing, concatenation, removal, and with
//! the multiset of elements.

use vstd::prelude::*;

verus! {

/// One step of `Seq::filter`: filtering after a push keeps the pushed
/// element exactly when it satisfies the predicate.
pub proof fn lemma_filter_push<A>(t: Seq<A>, x: A, pred: spec_fn(A) -> bool)
    ensures
        t.push(x).filter(pred) == if pred(x) {
            t.filter(pred).push(x)
        } else {
            t.filter(pred)
        },
{
    reveal(Seq::filter);
    assert(t.push(x).drop_last() =~= t);
    assert(t.push(x).last() == x);
}

/// Filtering keeps nothing when no element passes.
pub proof fn lemma_filter_none<A>(s: Seq<A>, pred: spec_fn(A) -> bool)
    requires
        forall|k: int| 0 <= k < s.len() ==> !pred(#[trigger] s[k]),
    ensures
        s.filter(pred) =~= Seq::<A>::empty(),
    decreases s.len(),
{
    reveal(Seq::filter);
    if s.len() > 0 {
        let t = s.drop_last();
        assert(forall|k: int| 0 <= k < t.len() ==> t[k] == s[k]);
        lemma_filter_none(t, pred);
    }
}

/// Filtering keeps everything when every element passes.
pub proof fn lemma_filter_all<A>(s: Seq<A>, pred: spec_fn(A) -> bool)
    requires
        forall|k: int| 0 <= k < s.len() ==> pred(#[trigger] s[k]),
    ensures
        s.filter(pred) == s,
    decreases s.len(),
{
    reveal(Seq::filter);
    if s.len() > 0 {
        let t = s.drop_last();
        assert(forall|k: int| 0 <= k < t.len() ==> t[k] == s[k]);
        lemma_filter_all(t, pred);
        assert(t.push(s.last()) =~= s);
    }
}

/// Filtering twice keeps exactly what filtering once keeps.
pub proof fn lemma_filter_idempotent<A>(s: Seq<A>, pred: spec_fn(A) -> bool)
    ensures
        s.filter(pred).filter(pred) == s.filter(pred),
{
    broadcast use vstd::prelude::Seq::lemma_filter_pred;

    lemma_filter_all(s.filter(pred), pred);
}

/// Everything a filtered sequence keeps occurs in the sequence filtered.
pub proof fn lemma_filter_subset_contains<A>(s: Seq<A>, pred: spec_fn(A) -> bool)
    ensures
        forall|y: A| #[trigger] s.filter(pred).contains(y) ==> s.contains(y),
    decreases s.len(),
{
    reveal(Seq::filter);
    if s.len() > 0 {
        let t = s.drop_last();
        lemma_filter_subset_contains(t, pred);
        assert forall|y: A| #[trigger] s.filter(pred).contains(y) implies s.contains(y) by {
            if pred(s.last()) {
                let f = s.filter(pred);
                let k = choose|k: int| 0 <= k < f.len() && f[k] == y;
                if k < f.len() - 1 {
                    assert(t.filter(pred)[k] == y);
                    assert(t.filter(pred).contains(y));
                    let m = choose|m: int| 0 <= m < t.len() && t[m] == y;
                    assert(s[m] == y);
                } else {
                    assert(y == s.last());
                    assert(s[s.len() - 1] == y);
                }
            } else {
                assert(t.filter(pred).contains(y));
                let m = choose|m: int| 0 <= m < t.len() && t[m] == y;
                assert(s[m] == y);
            }
        }
    }
}

/// Filtering distributes over concatenation.
pub proof fn lemma_filter_concat<A>(a: Seq<A>, b: Seq<A>, pred: spec_fn(A) -> bool)
    ensures
        (a + b).filter(pred) == a.filter(pred) + b.filter(pred),
    decreases b.len(),
{
    reveal(Seq::filter);
    if b.len() == 0 {
        assert(a + b =~= a);
        assert(a.filter(pred) + b.filter(pred) =~= a.filter(pred));
    } else {
        let c = a + b;
        assert(c.drop_last() =~= a + b.drop_last());
        assert(c.last() == b.last());
        lemma_filter_concat(a, b.drop_last(), pred);
        if pred(b.last()) {
            assert((a + b).filter(pred) =~= a.filter(pred) + b.drop_last().filter(pred).push(
                b.last(),
            ));
            assert(b.filter(pred) == b.drop_last().filter(pred).push(b.last()));
        } else {
            assert(b.filter(pred) == b.drop_last().filter(pred));
        }
    }
}

/// Removing one element changes the filtered multiset by exactly that
/// element, when it passes the filter.
pub proof fn lemma_filter_remove<A>(s: Seq<A>, i: int, pred: spec_fn(A) -> bool)
    requires
        0 <= i < s.len(),
    ensures
        pred(s[i]) ==> s.filter(pred).to_multiset() =~= s.remove(i).filter(
            pred,
        ).to_multiset().insert(s[i]),
        !pred(s[i]) ==> s.filter(pred).to_multiset() =~= s.remove(i).filter(pred).to_multiset(),
{
    broadcast use vstd::seq_lib::group_to_multiset_ensures;
    broadcast use vstd::multiset::group_multiset_axioms;

    assert(s =~= s.subrange(0, i) + (seq![s[i]] + s.subrange(i + 1, s.len() as int)));
    assert(s.remove(i) =~= s.subrange(0, i) + s.subrange(i + 1, s.len() as int));
    let front = s.subrange(0, i);
    let mid: Seq<A> = seq![s[i]];
    let back = s.subrange(i + 1, s.len() as int);
    lemma_filter_concat(front, mid + back, pred);
    lemma_filter_concat(mid, back, pred);
    lemma_filter_concat(front, back, pred);
    reveal_with_fuel(Seq::filter, 2);
    let a = front.filter(pred);
    let b = back.filter(pred);
    assert(s.remove(i).filter(pred) == a + b);
    vstd::seq_lib::lemma_multiset_commutative(a, b);
    if pred(s[i]) {
        assert(mid.filter(pred) =~= mid);
        assert(s.filter(pred) =~= a.push(s[i]) + b);
        vstd::seq_lib::lemma_multiset_commutative(a.push(s[i]), b);
        assert(a.push(s[i]).to_multiset() =~= a.to_multiset().insert(s[i]));
        assert(a.to_multiset().insert(s[i]).add(b.to_multiset()) =~= a.to_multiset().add(
            b.to_multiset(),
        ).insert(s[i]));
    } else {
        assert(mid.filter(pred) =~= Seq::<A>::empty());
        assert(s.filter(pred) =~= a + b);
    }
}

/// The multiset a filter keeps depends only on the multiset filtered.
pub proof fn lemma_filter_multiset<A>(s1: Seq<A>, s2: Seq<A>, pred: spec_fn(A) -> bool)
    requires
        s1.to_multiset() == s2.to_multiset(),
    ensures
        s1.filter(pred).to_multiset() == s2.filter(pred).to_multiset(),
    decreases s1.len(),
{
    broadcast use vstd::seq_lib::group_to_multiset_ensures;
    broadcast use vstd::multiset::group_multiset_axioms;

    reveal(Seq::filter);
    if s1.len() == 0 {
        assert(s1.to_multiset().len() == s1.len());
        assert(s2.to_multiset().len() == s2.len());
        assert(s2.len() == 0);
    } else {
        let x = s1.last();
        assert(s1.to_multiset().contains(x));
        assert(s2.contains(x));
        let j = choose|j: int| 0 <= j < s2.len() && s2[j] == x;
        let s2r = s2.remove(j);
        assert(s1 =~= s1.drop_last().push(x));
        assert(s1.to_multiset() =~= s1.drop_last().to_multiset().insert(x));
        assert(s2r.to_multiset() =~= s2.to_multiset().remove(x));
        assert(s1.drop_last().to_multiset() =~= s2r.to_multiset());
        lemma_filter_multiset(s1.drop_last(), s2r, pred);
        lemma_filter_remove(s2, j, pred);
        if pred(x) {
            assert(s1.filter(pred).to_multiset() =~= s1.drop_last().filter(
                pred,
            ).to_multiset().insert(x));
        }
    }
}

} // verus!
