//! Facts about sequences that the proofs on mod lists rest on.

use vstd::multiset::group_multiset_axioms;
use vstd::prelude::*;
use vstd::seq_lib::{group_to_multiset_ensures, to_multiset_len};

verus! {

/// Two runs with the same members keep the same members under any mapping.
pub proof fn lemma_map_values_permutes<A, B>(a: Seq<A>, b: Seq<A>, f: spec_fn(A) -> B)
    requires
        a.to_multiset() == b.to_multiset(),
    ensures
        a.map_values(f).to_multiset() == b.map_values(f).to_multiset(),
    decreases a.len(),
{
    broadcast use {group_to_multiset_ensures, group_multiset_axioms};

    if a.len() == 0 {
        assert(b.len() == 0) by {
            to_multiset_len(a);
            to_multiset_len(b);
        }
        assert(a.map_values(f) =~= b.map_values(f));
    } else {
        let x = a.last();
        let a1 = a.drop_last();
        assert(a =~= a1.push(x));
        assert(b.to_multiset().count(x) > 0);
        assert(b.contains(x));
        let j = choose|j: int| 0 <= j < b.len() && b[j] == x;
        let b1 = b.remove(j);
        assert(a1.to_multiset() =~= b1.to_multiset());
        lemma_map_values_permutes(a1, b1, f);
        let am = a.map_values(f);
        let bm = b.map_values(f);
        assert(am =~= a1.map_values(f).push(f(x)));
        assert(bm.remove(j) =~= b1.map_values(f));
        assert(bm[j] == f(x));
        assert(bm.contains(f(x)));
        assert(bm.to_multiset() =~= bm.remove(j).to_multiset().insert(f(x)));
        assert(am.to_multiset() =~= bm.to_multiset());
    }
}

/// A filter keeps a run whole when every member passes, and keeps nothing
/// of it when none does.
pub proof fn lemma_filter_uniform<A>(s: Seq<A>, pred: spec_fn(A) -> bool)
    ensures
        (forall|i: int| 0 <= i < s.len() ==> pred(#[trigger] s[i])) ==> s.filter(pred) == s,
        (forall|i: int| 0 <= i < s.len() ==> !pred(#[trigger] s[i])) ==> s.filter(pred)
            == Seq::<A>::empty(),
    decreases s.len(),
{
    if s.len() == 0 {
        assert(s.filter(pred) =~= s) by {
            s.lemma_filter_len(pred);
        }
    } else {
        let front = s.drop_last();
        assert(s =~= front.push(s.last()));
        lemma_filter_uniform(front, pred);
        front.lemma_filter_push(s.last(), pred);
        assert(forall|i: int| 0 <= i < front.len() ==> front[i] == s[i]);
    }
}

/// Two tests that agree on every member of a run filter it alike.
pub proof fn lemma_filter_agree<A>(s: Seq<A>, p: spec_fn(A) -> bool, q: spec_fn(A) -> bool)
    requires
        forall|i: int| 0 <= i < s.len() ==> p(#[trigger] s[i]) == q(s[i]),
    ensures
        s.filter(p) == s.filter(q),
    decreases s.len(),
{
    if s.len() == 0 {
        assert(s.filter(p) =~= s.filter(q)) by {
            s.lemma_filter_len(p);
            s.lemma_filter_len(q);
        }
    } else {
        let front = s.drop_last();
        assert(s =~= front.push(s.last()));
        assert(forall|i: int| 0 <= i < front.len() ==> front[i] == s[i]);
        lemma_filter_agree(front, p, q);
        front.lemma_filter_push(s.last(), p);
        front.lemma_filter_push(s.last(), q);
    }
}

/// How often a value occurs in what a filter keeps of a run.
pub proof fn lemma_filter_counts<A>(s: Seq<A>, pred: spec_fn(A) -> bool, x: A)
    ensures
        s.filter(pred).to_multiset().count(x) == if pred(x) {
            s.to_multiset().count(x)
        } else {
            0
        },
    decreases s.len(),
{
    broadcast use {group_to_multiset_ensures, group_multiset_axioms};

    if s.len() == 0 {
        assert(s.filter(pred) =~= s) by {
            s.lemma_filter_len(pred);
        }
        assert(!s.contains(x));
    } else {
        let front = s.drop_last();
        assert(s =~= front.push(s.last()));
        lemma_filter_counts(front, pred, x);
        front.lemma_filter_push(s.last(), pred);
    }
}

/// Two runs with the same members keep the same members under any filter.
pub proof fn lemma_filter_permutes<A>(a: Seq<A>, b: Seq<A>, pred: spec_fn(A) -> bool)
    requires
        a.to_multiset() == b.to_multiset(),
    ensures
        a.filter(pred).to_multiset() == b.filter(pred).to_multiset(),
{
    broadcast use group_multiset_axioms;

    assert forall|x: A|
        a.filter(pred).to_multiset().count(x) == b.filter(pred).to_multiset().count(x) by {
        lemma_filter_counts(a, pred, x);
        lemma_filter_counts(b, pred, x);
    }
    assert(a.filter(pred).to_multiset() =~= b.filter(pred).to_multiset());
}

/// A run of at most one member is known by its members.
pub proof fn lemma_short_run<A>(a: Seq<A>, b: Seq<A>)
    requires
        a.to_multiset() == b.to_multiset(),
        b.len() <= 1,
    ensures
        a == b,
{
    broadcast use {group_to_multiset_ensures, group_multiset_axioms};

    to_multiset_len(a);
    to_multiset_len(b);
    if a.len() == 1 {
        assert(a.contains(a[0]));
        assert(b.to_multiset().count(a[0]) > 0);
        assert(b.contains(a[0]));
    }
    assert(a =~= b);
}

} // verus!
