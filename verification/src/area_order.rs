//! The paint order of areas: an `indexmap::IndexMap` from way identifier to
//! signed area in square pixels, largest magnitude first.

use crate::data::Id;
use crate::geometry::{area_magnitude, half_away, lemma_half_away, magnitude};
use crate::seq_lemmas::lemma_same_items;
use indexmap::IndexMap;
use std::hash::RandomState;
use vstd::prelude::*;

verus! {

/// `indexmap::IndexMap`: a hash map that keeps its entries in the order in
/// which their keys first came in. Verus sees nothing inside it.
#[verifier::external_type_specification]
#[verifier::external_body]
#[verifier::reject_recursive_types(K)]
#[verifier::reject_recursive_types(V)]
#[verifier::reject_recursive_types(S)]
pub struct ExIndexMap<K, V, S>(IndexMap<K, V, S>);

/// The map from way identifier to signed area in square pixels.
pub type AreaSizeOrderedCache = IndexMap<Id, i128, RandomState>;

/// The entries of the map in their order.
pub uninterp spec fn area_entries(m: AreaSizeOrderedCache) -> Seq<(Id, i128)>;

/// Position of the first entry of `s` under `key`, or `s.len()`.
pub open spec fn entry_index(s: Seq<(Id, i128)>, key: Id) -> int
    decreases s.len(),
{
    if s.len() == 0 {
        0
    } else if s[0].0 == key {
        0
    } else {
        1 + entry_index(s.skip(1), key)
    }
}

/// `entry_index` is the first position that holds the key.
pub proof fn lemma_entry_index(s: Seq<(Id, i128)>, key: Id)
    ensures
        0 <= entry_index(s, key) <= s.len(),
        entry_index(s, key) < s.len() ==> s[entry_index(s, key)].0 == key,
        forall|i: int| 0 <= i < entry_index(s, key) ==> (#[trigger] s[i]).0 != key,
    decreases s.len(),
{
    if s.len() == 0 {
    } else if s[0].0 == key {
    } else {
        let t = s.skip(1);
        lemma_entry_index(t, key);
        assert forall|i: int| 0 <= i < entry_index(s, key) implies (#[trigger] s[i]).0 != key by {
            if i > 0 {
                assert(t[i - 1] == s[i]);
            }
        }
        if entry_index(t, key) < t.len() {
            assert(s[entry_index(t, key) + 1] == t[entry_index(t, key)]);
        }
    }
}

/// `indexmap::IndexMap::new`: a map without entries.
#[verifier::external_body]
pub(crate) fn area_map_new() -> (m: AreaSizeOrderedCache)
    ensures
        area_entries(m) == Seq::<(Id, i128)>::empty(),
{
    IndexMap::new()
}

/// `indexmap::IndexMap::clear`: no entry is left.
#[verifier::external_body]
pub(crate) fn area_map_clear(m: &mut AreaSizeOrderedCache)
    ensures
        area_entries(*final(m)) == Seq::<(Id, i128)>::empty(),
{
    m.clear()
}

/// `indexmap::IndexMap::insert`: where the key is in the map its entry
/// keeps its place and takes the new value, and the old value comes back;
/// where it is not, the entry goes to the end and nothing comes back.
#[verifier::external_body]
pub(crate) fn area_map_insert(m: &mut AreaSizeOrderedCache, key: Id, value: i128) -> (r: Option<
    i128,
>)
    ensures
        ({
            let before = area_entries(*old(m));
            let i = entry_index(before, key);
            if i < before.len() {
                r == Some(before[i].1) && area_entries(*final(m)) == before.update(i, (key, value))
            } else {
                r.is_none() && area_entries(*final(m)) == before.push((key, value))
            }
        }),
{
    m.insert(key, value)
}

/// `indexmap::IndexMap::get`: the value of the entry under `key`.
#[verifier::external_body]
pub(crate) fn area_map_get(m: &AreaSizeOrderedCache, key: Id) -> (r: Option<i128>)
    ensures
        ({
            let entries = area_entries(*m);
            let i = entry_index(entries, key);
            if i < entries.len() {
                r == Some(entries[i].1)
            } else {
                r.is_none()
            }
        }),
{
    m.get(&key).copied()
}

/// `indexmap::IndexMap::keys`: the keys in the order of the entries.
#[verifier::external_body]
pub(crate) fn area_map_keys(m: &AreaSizeOrderedCache) -> (r: Vec<Id>)
    ensures
        r@ == area_entries(*m).map_values(|e: (Id, i128)| e.0),
{
    m.keys().copied().collect()
}

/// `indexmap::IndexMap::len`: the number of entries.
#[verifier::external_body]
pub(crate) fn area_map_len(m: &AreaSizeOrderedCache) -> (n: usize)
    ensures
        n == area_entries(*m).len(),
{
    m.len()
}

/// An area with its identifier.
pub type AreaEntry = (Id, i128);

/// The magnitude of an entry's area.
pub open spec fn size_of(e: AreaEntry) -> int {
    magnitude(e.1 as int)
}

/// No entry is larger than one before it.
pub open spec fn largest_first(s: Seq<AreaEntry>) -> bool {
    forall|i: int, j: int| 0 <= i < j < s.len() ==> size_of(#[trigger] s[i]) >= size_of(#[trigger] s[j])
}

/// `s` with `e` put behind the last entry that is not smaller than `e`.
pub open spec fn insert_by_area(s: Seq<AreaEntry>, e: AreaEntry) -> Seq<AreaEntry>
    decreases s.len(),
{
    if s.len() == 0 {
        seq![e]
    } else if size_of(s.last()) >= size_of(e) {
        s.push(e)
    } else {
        insert_by_area(s.drop_last(), e).push(s.last())
    }
}

/// The entries of `s` with the largest first; entries of one size keep
/// the order that they have in `s`.
pub open spec fn order_by_area(s: Seq<AreaEntry>) -> Seq<AreaEntry>
    decreases s.len(),
{
    if s.len() == 0 {
        Seq::empty()
    } else {
        insert_by_area(order_by_area(s.drop_last()), s.last())
    }
}

/// Where every entry from `p` on is smaller than `e` and the one before
/// `p` is not, `e` goes in at `p`.
pub proof fn lemma_insert_at(s: Seq<AreaEntry>, e: AreaEntry, p: int)
    requires
        0 <= p <= s.len(),
        forall|i: int| p <= i < s.len() ==> size_of(#[trigger] s[i]) < size_of(e),
        p > 0 ==> size_of(s[p - 1]) >= size_of(e),
    ensures
        insert_by_area(s, e) == s.insert(p, e),
    decreases s.len() - p,
{
    if s.len() == 0 {
        assert(s.insert(p, e) =~= seq![e]);
    } else if p == s.len() {
        assert(s.insert(p, e) =~= s.push(e));
    } else {
        let t = s.drop_last();
        assert(size_of(s[s.len() - 1]) < size_of(e));
        assert forall|i: int| p <= i < t.len() implies size_of(#[trigger] t[i]) < size_of(e) by {
            assert(t[i] == s[i]);
        }
        if p > 0 {
            assert(t[p - 1] == s[p - 1]);
        }
        lemma_insert_at(t, e, p);
        assert(t.insert(p, e).push(s.last()) =~= s.insert(p, e));
    }
}

/// Putting an entry into a list that has its largest first leaves a list
/// that has its largest first and holds the old entries and the new one.
pub proof fn lemma_insert_by_area(s: Seq<AreaEntry>, e: AreaEntry)
    requires
        largest_first(s),
    ensures
        largest_first(insert_by_area(s, e)),
        insert_by_area(s, e).to_multiset() == s.to_multiset().insert(e),
        insert_by_area(s, e).len() == s.len() + 1,
    decreases s.len(),
{
    broadcast use vstd::seq_lib::group_to_multiset_ensures;

    let r = insert_by_area(s, e);
    if s.len() == 0 {
        assert(r =~= Seq::<AreaEntry>::empty().push(e));
        assert(s =~= Seq::<AreaEntry>::empty());
    } else if size_of(s.last()) >= size_of(e) {
        assert forall|i: int, j: int| 0 <= i < j < r.len() implies size_of(#[trigger] r[i])
            >= size_of(#[trigger] r[j]) by {
            if j == s.len() {
                assert(size_of(s[i]) >= size_of(s[s.len() - 1]));
            } else {
                assert(size_of(s[i]) >= size_of(s[j]));
            }
        }
    } else {
        let t = s.drop_last();
        let last = s.last();
        assert(largest_first(t)) by {
            assert forall|i: int, j: int| 0 <= i < j < t.len() implies size_of(#[trigger] t[i])
                >= size_of(#[trigger] t[j]) by {
                assert(size_of(s[i]) >= size_of(s[j]));
            }
        }
        lemma_insert_by_area(t, e);
        let u = insert_by_area(t, e);
        assert(s =~= t.push(last));
        assert(r.to_multiset() =~= s.to_multiset().insert(e));
        assert forall|i: int, j: int| 0 <= i < j < r.len() implies size_of(#[trigger] r[i])
            >= size_of(#[trigger] r[j]) by {
            if j == u.len() {
                u.to_multiset_ensures();
                t.to_multiset_ensures();
                assert(u.contains(u[i]));
                assert(u.to_multiset().count(u[i]) > 0);
                if u[i] != e {
                    assert(t.to_multiset().count(u[i]) > 0);
                    assert(t.contains(u[i]));
                    let m = choose|m: int| 0 <= m < t.len() && t[m] == u[i];
                    assert(size_of(s[m]) >= size_of(s[s.len() - 1]));
                }
            } else {
                assert(size_of(u[i]) >= size_of(u[j]));
            }
        }
    }
}

/// The ordered list has its largest first and holds the entries of the
/// list that it was made from, each as often.
pub proof fn lemma_order_by_area(s: Seq<AreaEntry>)
    ensures
        largest_first(order_by_area(s)),
        order_by_area(s).to_multiset() == s.to_multiset(),
        order_by_area(s).len() == s.len(),
    decreases s.len(),
{
    broadcast use vstd::seq_lib::group_to_multiset_ensures;

    if s.len() > 0 {
        let t = s.drop_last();
        lemma_order_by_area(t);
        lemma_insert_by_area(order_by_area(t), s.last());
        assert(s =~= t.push(s.last()));
    }
}

/// Where no identifier occurs twice in `s`, none does in the ordered list,
/// and the two hold the same entries.
pub proof fn lemma_order_keeps_keys(s: Seq<AreaEntry>)
    requires
        s.map_values(|e: AreaEntry| e.0).no_duplicates(),
    ensures
        order_by_area(s).map_values(|e: AreaEntry| e.0).no_duplicates(),
        forall|e: AreaEntry| order_by_area(s).contains(e) <==> s.contains(e),
{
    lemma_order_by_area(s);
    lemma_same_items(order_by_area(s), s, |e: AreaEntry| e.0);
}

/// The entry `e` with its area halved, a half rounded away from zero.
pub open spec fn halved(e: AreaEntry) -> AreaEntry {
    (e.0, half_away(e.1 as int) as i128)
}

/// Halving the areas of a list keeps it in order.
pub proof fn lemma_halved_order(s: Seq<AreaEntry>)
    requires
        largest_first(s),
    ensures
        largest_first(s.map_values(|e: AreaEntry| halved(e))),
{
    let h = s.map_values(|e: AreaEntry| halved(e));
    assert forall|i: int, j: int| 0 <= i < j < h.len() implies size_of(#[trigger] h[i]) >= size_of(
        #[trigger] h[j],
    ) by {
        assert(size_of(s[i]) >= size_of(s[j]));
        lemma_half_away(s[j].1 as int, s[i].1 as int);
    }
}

/// Puts `e` into `v` behind the last entry that is not smaller.
pub fn insert_sorted(v: &mut Vec<AreaEntry>, e: AreaEntry)
    ensures
        final(v)@ == insert_by_area(old(v)@, e),
{
    let size = area_magnitude(e.1);
    let mut p: usize = v.len();
    while p > 0 && area_magnitude(v[p - 1].1) < size
        invariant
            p <= v@.len(),
            v@ == old(v)@,
            size == size_of(e),
            forall|i: int| p <= i < v@.len() ==> size_of(#[trigger] v@[i]) < size_of(e),
        decreases p,
    {
        p = p - 1;
    }
    proof {
        lemma_insert_at(v@, e, p as int);
    }
    v.insert(p, e);
}

/// Orders `entries` with the largest first.
pub fn sort_by_area(entries: &Vec<AreaEntry>) -> (r: Vec<AreaEntry>)
    ensures
        r@ == order_by_area(entries@),
{
    let mut r: Vec<AreaEntry> = Vec::new();
    let mut i: usize = 0;
    while i < entries.len()
        invariant
            i <= entries@.len(),
            r@ == order_by_area(entries@.take(i as int)),
        decreases entries@.len() - i,
    {
        proof {
            assert(entries@.take(i + 1).drop_last() =~= entries@.take(i as int));
        }
        insert_sorted(&mut r, entries[i]);
        i = i + 1;
    }
    assert(entries@.take(entries@.len() as int) =~= entries@);
    r
}

/// Where `key` is in no entry of `s`, `entry_index` is the length of `s`.
pub proof fn lemma_entry_index_absent(s: Seq<AreaEntry>, key: Id)
    requires
        forall|i: int| 0 <= i < s.len() ==> (#[trigger] s[i]).0 != key,
    ensures
        entry_index(s, key) == s.len(),
{
    lemma_entry_index(s, key);
}

} // verus!
