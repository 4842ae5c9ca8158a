//! General facts about `Seq::filter` and multisets that the scheduling and
//! batching proofs lean on.

use vstd::prelude::*;
use vstd::seq_lib::lemma_multiset_commutative;

verus! {

/// Appending one element extends the filtered sequence by that element
/// exactly when the element satisfies the predicate.
pub proof fn lemma_filter_push<A>(s: Seq<A>, pred: spec_fn(A) -> bool, x: A)
    ensures
        s.push(x).filter(pred) == if pred(x) {
            s.filter(pred).push(x)
        } else {
            s.filter(pred)
        },
{
    reveal(Seq::filter);
    assert(s.push(x).drop_last() =~= s);
}

/// Filtering keeps a sequence unchanged when every element satisfies the
/// predicate, and empties it when none does.
pub proof fn lemma_filter_all_or_none<A>(s: Seq<A>, pred: spec_fn(A) -> bool)
    ensures
        (forall|i: int| 0 <= i < s.len() ==> pred(#[trigger] s[i])) ==> s.filter(pred) == s,
        (forall|i: int| 0 <= i < s.len() ==> !pred(#[trigger] s[i])) ==> s.filter(pred)
            == Seq::<A>::empty(),
    decreases s.len(),
{
    reveal(Seq::filter);
    if s.len() > 0 {
        lemma_filter_all_or_none(s.drop_last(), pred);
        if forall|i: int| 0 <= i < s.len() ==> pred(#[trigger] s[i]) {
            assert(s.drop_last().filter(pred).push(s.last()) =~= s);
        }
    } else {
        assert(s.filter(pred) =~= Seq::<A>::empty());
    }
}

/// A predicate and its negation split a sequence into two parts whose
/// lengths sum to the length of the whole.
pub proof fn lemma_filter_partition_len<A>(s: Seq<A>, p: spec_fn(A) -> bool, q: spec_fn(A) -> bool)
    requires
        forall|a: A| #[trigger] q(a) <==> !p(a),
    ensures
        s.filter(p).len() + s.filter(q).len() == s.len(),
    decreases s.len(),
{
    reveal(Seq::filter);
    if s.len() > 0 {
        lemma_filter_partition_len(s.drop_last(), p, q);
    }
}

/// Mapping a sequence and then taking the multiset commutes with splitting
/// the sequence by a predicate and its negation: together the two filtered
/// parts carry exactly the mapped elements of the whole.
pub proof fn lemma_filter_partition_multiset<A, B>(
    s: Seq<A>,
    p: spec_fn(A) -> bool,
    q: spec_fn(A) -> bool,
    f: spec_fn(A) -> B,
)
    requires
        forall|a: A| #[trigger] q(a) <==> !p(a),
    ensures
        s.filter(p).map_values(f).to_multiset().add(s.filter(q).map_values(f).to_multiset())
            == s.map_values(f).to_multiset(),
    decreases s.len(),
{
    broadcast use vstd::multiset::group_multiset_axioms;
    broadcast use vstd::seq_lib::group_to_multiset_ensures;

    reveal(Seq::filter);
    if s.len() == 0 {
        assert(s.filter(p).map_values(f) =~= Seq::<B>::empty());
        assert(s.filter(q).map_values(f) =~= Seq::<B>::empty());
        assert(s.map_values(f) =~= Seq::<B>::empty());
        assert(s.filter(p).map_values(f).to_multiset().add(
            s.filter(q).map_values(f).to_multiset(),
        ) =~= s.map_values(f).to_multiset());
    } else {
        let dl = s.drop_last();
        let l = s.last();
        lemma_filter_partition_multiset(dl, p, q, f);
        assert(s.map_values(f) =~= dl.map_values(f).push(f(l)));
        if p(l) {
            assert(s.filter(p).map_values(f) =~= dl.filter(p).map_values(f).push(f(l)));
            assert(s.filter(q).map_values(f) =~= dl.filter(q).map_values(f));
            assert(s.filter(p).map_values(f).to_multiset().add(
                s.filter(q).map_values(f).to_multiset(),
            ) =~= s.map_values(f).to_multiset());
        } else {
            assert(s.filter(p).map_values(f) =~= dl.filter(p).map_values(f));
            assert(s.filter(q).map_values(f) =~= dl.filter(q).map_values(f).push(f(l)));
            assert(s.filter(p).map_values(f).to_multiset().add(
                s.filter(q).map_values(f).to_multiset(),
            ) =~= s.map_values(f).to_multiset());
        }
    }
}

/// Every element of a filtered sequence comes from the sequence it was
/// filtered out of.
pub proof fn lemma_filter_is_subset<A>(s: Seq<A>, pred: spec_fn(A) -> bool, i: int)
    requires
        0 <= i < s.filter(pred).len(),
    ensures
        s.contains(s.filter(pred)[i]),
    decreases s.len(),
{
    reveal(Seq::filter);
    if s.len() > 0 {
        let dl = s.drop_last();
        let fdl = dl.filter(pred);
        if i < fdl.len() {
            lemma_filter_is_subset(dl, pred, i);
            let k = choose|k: int| 0 <= k < dl.len() && dl[k] == fdl[i];
            assert(s[k] == fdl[i]);
            assert(s.contains(fdl[i]));
        } else {
            assert(pred(s.last()));
            assert(s.filter(pred)[i] == s.last());
            assert(s.contains(s.last()));
        }
    }
}

/// Concatenation on sequences turns into multiset addition.
pub proof fn lemma_concat_multiset<A>(a: Seq<A>, b: Seq<A>)
    ensures
        (a + b).to_multiset() == a.to_multiset().add(b.to_multiset()),
{
    lemma_multiset_commutative(a, b);
    assert((a + b).to_multiset() =~= a.to_multiset().add(b.to_multiset()));
}

/// Mapping distributes over concatenation.
pub proof fn lemma_map_values_concat<A, B>(a: Seq<A>, b: Seq<A>, f: spec_fn(A) -> B)
    ensures
        (a + b).map_values(f) == a.map_values(f) + b.map_values(f),
{
    assert((a + b).map_values(f) =~= a.map_values(f) + b.map_values(f));
}

} // verus!
