use vstd::prelude::*;
use vstd::multiset::Multiset;
use vstd::seq_lib::{to_multiset_build, to_multiset_contains, to_multiset_insert, to_multiset_remove};

verus! {

/// A filter keeps a sequence whose elements all pass.
pub proof fn lemma_filter_all<T>(s: Seq<T>, pred: spec_fn(T) -> bool)
    requires
        forall|i: int| 0 <= i < s.len() ==> pred(#[trigger] s[i]),
    ensures
        s.filter(pred) == s,
    decreases s.len(),
{
    reveal(Seq::filter);
    if s.len() > 0 {
        lemma_filter_all(s.drop_last(), pred);
        assert(s.drop_last().push(s.last()) =~= s);
    }
}

/// A filter empties a sequence none of whose elements pass.
pub proof fn lemma_filter_none<T>(s: Seq<T>, pred: spec_fn(T) -> bool)
    requires
        forall|i: int| 0 <= i < s.len() ==> !pred(#[trigger] s[i]),
    ensures
        s.filter(pred) == Seq::<T>::empty(),
    decreases s.len(),
{
    reveal(Seq::filter);
    if s.len() > 0 {
        lemma_filter_none(s.drop_last(), pred);
    }
}

/// Two predicates that agree on every element filter alike.
pub proof fn lemma_filter_agree<T>(s: Seq<T>, p: spec_fn(T) -> bool, q: spec_fn(T) -> bool)
    requires
        forall|i: int| 0 <= i < s.len() ==> p(#[trigger] s[i]) == q(s[i]),
    ensures
        s.filter(p) == s.filter(q),
    decreases s.len(),
{
    reveal(Seq::filter);
    if s.len() > 0 {
        lemma_filter_agree(s.drop_last(), p, q);
    }
}

/// The empty sequence holds nothing.
pub proof fn lemma_empty_multiset<T>()
    ensures
        Seq::<T>::empty().to_multiset() == Multiset::<T>::empty(),
{
    broadcast use vstd::multiset::group_multiset_axioms;
    broadcast use vstd::seq_lib::group_to_multiset_ensures;

    let nothing = Seq::<T>::empty().to_multiset();
    assert(nothing.len() == 0);
    vstd::multiset::lemma_multiset_empty_len(nothing);
    assert(nothing =~= Multiset::<T>::empty());
}

/// Filtering a sequence and counting comes to counting and filtering.
pub proof fn lemma_filter_multiset<T>(s: Seq<T>, pred: spec_fn(T) -> bool)
    ensures
        s.filter(pred).to_multiset() == s.to_multiset().filter(pred),
    decreases s.len(),
{
    broadcast use vstd::multiset::group_multiset_axioms;
    broadcast use vstd::seq_lib::group_to_multiset_ensures;

    if s.len() == 0 {
        lemma_filter_none(s, pred);
        assert(s =~= Seq::<T>::empty());
        assert(s.filter(pred).to_multiset() =~= s.to_multiset().filter(pred));
    } else {
        let rest = s.drop_last();
        let x = s.last();
        lemma_filter_multiset(rest, pred);
        assert(s =~= rest.push(x));
        Seq::lemma_filter_push(rest, x, pred);
        to_multiset_build(rest, x);
        to_multiset_build(rest.filter(pred), x);
        assert(s.filter(pred).to_multiset() =~= s.to_multiset().filter(pred));
    }
}

/// Two sequences with the same elements have the same elements after a map.
pub proof fn lemma_map_permutation<A, B>(a: Seq<A>, b: Seq<A>, f: spec_fn(A) -> B)
    requires
        a.to_multiset() == b.to_multiset(),
    ensures
        a.map_values(f).to_multiset() == b.map_values(f).to_multiset(),
    decreases a.len(),
{
    broadcast use vstd::seq_lib::group_to_multiset_ensures;
    broadcast use vstd::multiset::group_multiset_axioms;

    assert(a.to_multiset().len() == a.len());
    assert(b.to_multiset().len() == b.len());
    if a.len() == 0 {
        assert(a.map_values(f) =~= b.map_values(f));
    } else {
        let x = a.last();
        let shorter = a.drop_last();
        assert(a =~= shorter.push(x));
        to_multiset_build(shorter, x);
        assert(a.contains(x));
        to_multiset_contains(a, x);
        to_multiset_contains(b, x);
        assert(b.contains(x));
        let at = choose|at: int| 0 <= at < b.len() && b[at] == x;
        let rest = b.remove(at);
        to_multiset_remove(b, at);
        assert(shorter.to_multiset() =~= rest.to_multiset());
        lemma_map_permutation(shorter, rest, f);
        assert(a.map_values(f) =~= shorter.map_values(f).push(f(x)));
        to_multiset_build(shorter.map_values(f), f(x));
        assert(b.map_values(f) =~= rest.map_values(f).insert(at, f(x)));
        to_multiset_insert(rest.map_values(f), at, f(x));
    }
}

} // verus!
