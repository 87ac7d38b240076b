use vstd::multiset::Multiset;
use vstd::prelude::*;
use vstd::relations::sorted_by;
use vstd::seq_lib::lemma_multiset_commutative;

verus! {

/// Extending the prefix under a filter keeps or appends the next element,
/// depending on the predicate.
pub proof fn lemma_filter_take_step<A>(s: Seq<A>, pred: spec_fn(A) -> bool, i: int)
    requires
        0 <= i < s.len(),
    ensures
        pred(s[i]) ==> s.take(i + 1).filter(pred) == s.take(i).filter(pred).push(s[i]),
        !pred(s[i]) ==> s.take(i + 1).filter(pred) == s.take(i).filter(pred),
{
    reveal(Seq::filter);
    let t = s.take(i + 1);
    assert(t.len() == i + 1);
    assert(t.drop_last() =~= s.take(i));
    assert(t.last() == s[i]);
}

/// A filter whose predicate every element meets changes nothing.
pub proof fn lemma_filter_all<A>(s: Seq<A>, pred: spec_fn(A) -> bool)
    requires
        forall|i: int| 0 <= i < s.len() ==> pred(#[trigger] s[i]),
    ensures
        s.filter(pred) == s,
    decreases s.len(),
{
    reveal(Seq::filter);
    if s.len() > 0 {
        lemma_filter_all(s.drop_last(), pred);
    }
    assert(s.filter(pred) =~= s);
}

/// A filter whose predicate no element meets leaves nothing.
pub proof fn lemma_filter_none<A>(s: Seq<A>, pred: spec_fn(A) -> bool)
    requires
        forall|i: int| 0 <= i < s.len() ==> !pred(#[trigger] s[i]),
    ensures
        s.filter(pred) == Seq::<A>::empty(),
    decreases s.len(),
{
    reveal(Seq::filter);
    if s.len() > 0 {
        lemma_filter_none(s.drop_last(), pred);
    }
    assert(s.filter(pred) =~= Seq::<A>::empty());
}

/// Every element the filter keeps stands somewhere in the unfiltered
/// sequence.
pub proof fn lemma_filter_index<A>(s: Seq<A>, pred: spec_fn(A) -> bool, i: int)
    requires
        0 <= i < s.filter(pred).len(),
    ensures
        exists|p: int| 0 <= p < s.len() && s[p] == #[trigger] s.filter(pred)[i],
    decreases s.len(),
{
    reveal(Seq::filter);
    let f = s.filter(pred);
    let fd = s.drop_last().filter(pred);
    if pred(s.last()) && i == f.len() - 1 {
        assert(s[s.len() - 1] == f[i]);
    } else {
        lemma_filter_index(s.drop_last(), pred, i);
        let p = choose|p: int| 0 <= p < s.drop_last().len() && s.drop_last()[p] == fd[i];
        assert(s[p] == f[i]);
    }
}

/// Two distinct filter positions come from two distinct positions of
/// the unfiltered sequence, in the same order.
pub proof fn lemma_filter_ordered_pairs<A>(s: Seq<A>, pred: spec_fn(A) -> bool, i: int, j: int)
    requires
        0 <= i < j < s.filter(pred).len(),
    ensures
        exists|p: int, q: int|
            0 <= p < q < s.len() && s[p] == s.filter(pred)[i] && s[q] == s.filter(pred)[j],
    decreases s.len(),
{
    reveal(Seq::filter);
    let f = s.filter(pred);
    let fd = s.drop_last().filter(pred);
    if pred(s.last()) && j == f.len() - 1 {
        lemma_filter_index(s.drop_last(), pred, i);
        let p = choose|p: int| 0 <= p < s.drop_last().len() && s.drop_last()[p] == fd[i];
        assert(s[p] == f[i] && s[s.len() - 1] == f[j]);
    } else {
        lemma_filter_ordered_pairs(s.drop_last(), pred, i, j);
        let (p, q) = choose|p: int, q: int|
            0 <= p < q < s.drop_last().len() && s.drop_last()[p] == fd[i] && s.drop_last()[q]
                == fd[j];
        assert(s[p] == f[i] && s[q] == f[j]);
    }
}

/// An element of one of two multiset-equal sequences stands somewhere in
/// the other.
pub proof fn lemma_multiset_elem_src<A>(a: Seq<A>, b: Seq<A>, k: int)
    requires
        a.to_multiset() == b.to_multiset(),
        0 <= k < a.len(),
    ensures
        exists|p: int| 0 <= p < b.len() && b[p] == a[k],
{
    a.to_multiset_ensures();
    b.to_multiset_ensures();
    assert(a.contains(a[k]));
    assert(a.to_multiset().count(a[k]) > 0);
    assert(b.contains(a[k]));
}

/// Inserting an element anywhere adds exactly it to the multiset.
pub proof fn lemma_to_multiset_insert<A>(s: Seq<A>, j: int, x: A)
    requires
        0 <= j <= s.len(),
    ensures
        s.insert(j, x).to_multiset() == s.to_multiset().insert(x),
{
    let t = s.insert(j, x);
    let a = s.take(j);
    let b = s.skip(j);
    let xs = seq![x];
    assert(t =~= a + xs + b);
    assert(s =~= a + b);
    lemma_multiset_commutative(a + xs, b);
    lemma_multiset_commutative(a, xs);
    lemma_multiset_commutative(a, b);
    assert(xs =~= Seq::<A>::empty().push(x));
    Seq::<A>::empty().to_multiset_ensures();
    assert(xs.to_multiset() == Seq::<A>::empty().to_multiset().insert(x));
    assert(Seq::<A>::empty().to_multiset().len() == 0);
    assert(Seq::<A>::empty().to_multiset() =~= Multiset::<A>::empty());
    assert(t.to_multiset() =~= s.to_multiset().insert(x));
}

/// Inserting at the point where everything before is below and the next
/// element is above keeps the sequence sorted, for a transitive order.
pub proof fn lemma_sorted_insert<A>(s: Seq<A>, j: int, x: A, leq: spec_fn(A, A) -> bool)
    requires
        sorted_by(s, leq),
        0 <= j <= s.len(),
        forall|k: int| 0 <= k < j ==> leq(#[trigger] s[k], x),
        j < s.len() ==> leq(x, s[j]),
        forall|a: A, b: A, c: A| #[trigger] leq(a, b) && #[trigger] leq(b, c) ==> leq(a, c),
    ensures
        sorted_by(s.insert(j, x), leq),
{
    let t = s.insert(j, x);
    assert forall|p: int, q: int| 0 <= p < q < t.len() implies leq(t[p], t[q]) by {
        if q < j {
            assert(t[p] == s[p] && t[q] == s[q]);
        } else if p < j && q == j {
            assert(t[p] == s[p] && t[q] == x);
        } else if p < j && q > j {
            assert(t[p] == s[p] && t[q] == s[q - 1]);
            if q - 1 == j {
                assert(leq(s[p], x) && leq(x, s[j]));
            } else {
                assert(leq(s[p], s[q - 1]));
            }
        } else if p == j {
            assert(t[p] == x && t[q] == s[q - 1]);
            assert(leq(x, s[j]));
            if q - 1 > j {
                assert(leq(s[j], s[q - 1]));
            }
        } else {
            assert(t[p] == s[p - 1] && t[q] == s[q - 1]);
        }
    }
}

} // verus!
