//! Facts about sequences that the cache contracts rest on.

use vstd::prelude::*;

verus! {

/// Filtering keeps keys distinct, and keeps exactly the items that pass.
pub proof fn lemma_filter_keeps_distinct<A, K>(
    s: Seq<A>,
    pred: spec_fn(A) -> bool,
    key: spec_fn(A) -> K,
)
    requires
        s.map_values(key).no_duplicates(),
    ensures
        s.filter(pred).map_values(key).no_duplicates(),
        forall|x: A| s.filter(pred).contains(x) <==> s.contains(x) && pred(x),
    decreases s.len(),
{
    broadcast use vstd::seq_lib::group_seq_properties;

    if s.len() == 0 {
        assert(s.filter(pred) =~= Seq::<A>::empty()) by {
            reveal(Seq::filter);
        }
    } else {
        let t = s.drop_last();
        let e = s.last();
        assert(s =~= t.push(e));
        assert(t.map_values(key) =~= s.map_values(key).drop_last());
        lemma_filter_keeps_distinct(t, pred, key);
        t.lemma_filter_push(e, pred);
        let f = t.filter(pred);
        let g = s.filter(pred);
        assert forall|x: A| g.contains(x) <==> s.contains(x) && pred(x) by {
            if g.contains(x) {
                if pred(e) && x == e {
                } else {
                    assert(f.contains(x));
                }
            }
            if s.contains(x) && pred(x) {
                if x == e {
                    assert(g[g.len() - 1] == e);
                } else {
                    assert(t.contains(x));
                    assert(f.contains(x));
                    let i = choose|i: int| 0 <= i < f.len() && f[i] == x;
                    assert(g[i] == x);
                }
            }
        }
        if pred(e) {
            assert forall|i: int, j: int|
                0 <= i < g.len() && 0 <= j < g.len() && i != j implies g.map_values(key)[i]
                != g.map_values(key)[j] by {
                let last = g.len() - 1;
                if i < last && j < last {
                    assert(f.map_values(key)[i] != f.map_values(key)[j]);
                } else {
                    let o = if i == last { j } else { i };
                    assert(f.contains(f[o]));
                    assert(t.contains(f[o]));
                    let m = choose|m: int| 0 <= m < t.len() && t[m] == f[o];
                    assert(s.map_values(key)[m] != s.map_values(key)[s.len() - 1]);
                }
            }
        }
    }
}

/// A sequence with distinct keys holds no item twice.
pub proof fn lemma_distinct_keys_distinct_items<A, K>(s: Seq<A>, key: spec_fn(A) -> K)
    requires
        s.map_values(key).no_duplicates(),
    ensures
        s.no_duplicates(),
{
    assert forall|i: int, j: int| 0 <= i < s.len() && 0 <= j < s.len() && i != j implies s[i]
        != s[j] by {
        assert(s.map_values(key)[i] != s.map_values(key)[j]);
    }
}

/// Two sequences with the same items, counted, hold the same items; and
/// where in one of them every item's key decides the item, distinct keys
/// carry over to the other.
pub proof fn lemma_same_items<A, K>(a: Seq<A>, b: Seq<A>, key: spec_fn(A) -> K)
    requires
        a.to_multiset() == b.to_multiset(),
        b.map_values(key).no_duplicates(),
    ensures
        forall|x: A| a.contains(x) <==> b.contains(x),
        a.map_values(key).no_duplicates(),
        a.len() == b.len(),
{
    broadcast use vstd::multiset::group_multiset_axioms;

    a.to_multiset_ensures();
    b.to_multiset_ensures();
    lemma_distinct_keys_distinct_items(b, key);
    b.lemma_multiset_has_no_duplicates();
    a.lemma_multiset_has_no_duplicates_conv();
    assert forall|x: A| a.contains(x) <==> b.contains(x) by {
        assert(a.contains(x) <==> a.to_multiset().count(x) > 0);
        assert(b.contains(x) <==> b.to_multiset().count(x) > 0);
    }
    assert forall|i: int, j: int|
        0 <= i < a.len() && 0 <= j < a.len() && i != j implies a.map_values(key)[i]
        != a.map_values(key)[j] by {
        assert(a.contains(a[i]));
        assert(a.contains(a[j]));
        assert(b.contains(a[i]));
        assert(b.contains(a[j]));
        let m = choose|m: int| 0 <= m < b.len() && b[m] == a[i];
        let n = choose|n: int| 0 <= n < b.len() && b[n] == a[j];
        assert(a[i] != a[j]);
        assert(m != n);
        assert(b.map_values(key)[m] != b.map_values(key)[n]);
    }
}

/// Two tests that agree on every item of a sequence let the same items
/// pass.
pub proof fn lemma_filter_agree<A>(s: Seq<A>, p: spec_fn(A) -> bool, q: spec_fn(A) -> bool)
    requires
        forall|i: int| 0 <= i < s.len() ==> p(#[trigger] s[i]) == q(s[i]),
    ensures
        s.filter(p) == s.filter(q),
    decreases s.len(),
{
    if s.len() == 0 {
        reveal(Seq::filter);
        assert(s.filter(p) =~= s.filter(q));
    } else {
        let t = s.drop_last();
        assert forall|i: int| 0 <= i < t.len() implies p(#[trigger] t[i]) == q(t[i]) by {
            assert(t[i] == s[i]);
        }
        lemma_filter_agree(t, p, q);
        assert(s =~= t.push(s.last()));
        t.lemma_filter_push(s.last(), p);
        t.lemma_filter_push(s.last(), q);
        assert(p(s[s.len() - 1]) == q(s[s.len() - 1]));
    }
}

/// Two sequences that are equal behind one head have equal tails.
pub proof fn lemma_same_tail<A>(head: Seq<A>, a: Seq<A>, b: Seq<A>)
    requires
        head + a == head + b,
    ensures
        a == b,
{
    assert(a =~= (head + a).skip(head.len() as int));
    assert(b =~= (head + b).skip(head.len() as int));
}

} // verus!
