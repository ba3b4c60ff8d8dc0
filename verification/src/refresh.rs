//! The computations behind the derived caches, each from the store and
//! the lists that it reads to the value of one cache.

use crate::cache::{known_nodes, known_ways};
use crate::area_order::{halved, order_by_area, sort_by_area, AreaEntry};
use crate::data::{ways_closed, Coordinate, Id, OsmData, OsmDataView};
use crate::geometry::{doubled_area, doubled_area_size, halve, signed_area, Pos2};
use crate::mesh::{indices_in_range, mesh_of, tessellate, MeshData, MeshView};
use crate::model::{
    area_ways, cell, claimed_before, endpoints, first_claims, is_parented, is_way_area,
    line_ways, listed_in, lists_at, occurrences, orphans_of, usage_of, way_endpoints, way_is_area,
};
use crate::seq_lemmas::lemma_filter_keeps_distinct;
use std::collections::{HashMap, HashSet};
use vstd::prelude::*;

verus! {

broadcast use vstd::std_specs::hash::group_hash_axioms;

/// The nodes that the ways `ways` list.
pub fn collect_listed(data: &OsmData, ways: &Vec<Id>) -> (r: HashSet<Id>)
    requires
        data.wf(),
        known_ways(data@, ways@),
    ensures
        forall|n: Id| r@.contains(n) <==> listed_in(data@, ways@, n),
{
    let ghost d = data@;
    let mut r: HashSet<Id> = HashSet::new();
    let mut j: usize = 0;
    while j < ways.len()
        invariant
            j <= ways@.len(),
            d == data@,
            known_ways(d, ways@),
            forall|n: Id| r@.contains(n) <==> listed_in(d, ways@.take(j as int), n),
        decreases ways@.len() - j,
    {
        let w = ways[j];
        let way = data.way(w).unwrap();
        let ghost nodes = d.ways[w].nodes;
        let ghost before = ways@.take(j as int);
        let mut k: usize = 0;
        while k < way.nodes.len()
            invariant
                k <= way@.nodes.len(),
                way@.nodes == nodes,
                forall|n: Id|
                    r@.contains(n) <==> listed_in(d, before, n) || nodes.take(k as int).contains(n),
            decreases way@.nodes.len() - k,
        {
            let x = way.nodes[k];
            r.insert(x);
            proof {
                let t0 = nodes.take(k as int);
                let t1 = nodes.take(k + 1);
                assert(t1 =~= t0.push(x));
                assert forall|n: Id|
                    r@.contains(n) <==> listed_in(d, before, n) || t1.contains(n) by {
                    if t1.contains(n) {
                        let i = choose|i: int| 0 <= i < t1.len() && t1[i] == n;
                        if i < k {
                            assert(t0[i] == n);
                        }
                    }
                    if t0.contains(n) {
                        let i = choose|i: int| 0 <= i < t0.len() && t0[i] == n;
                        assert(t1[i] == n);
                    }
                    if n == x {
                        assert(t1[k as int] == x);
                    }
                }
            }
            k = k + 1;
        }
        proof {
            let after = ways@.take(j + 1);
            assert(nodes.take(nodes.len() as int) =~= nodes);
            assert(after =~= before.push(w));
            assert forall|n: Id| r@.contains(n) <==> listed_in(d, after, n) by {
                if listed_in(d, before, n) {
                    let (a, i) = choose|a: int, i: int|
                        0 <= a < before.len() && 0 <= i < d.ways[before[a]].nodes.len()
                            && #[trigger] d.ways[before[a]].nodes[i] == n;
                    assert(after[a] == before[a]);
                    assert(d.ways[after[a]].nodes[i] == n);
                }
                if nodes.contains(n) {
                    let i = choose|i: int| 0 <= i < nodes.len() && nodes[i] == n;
                    assert(after[j as int] == w);
                    assert(d.ways[after[j as int]].nodes[i] == n);
                }
                if listed_in(d, after, n) {
                    let (a, i) = choose|a: int, i: int|
                        0 <= a < after.len() && 0 <= i < d.ways[after[a]].nodes.len()
                            && #[trigger] d.ways[after[a]].nodes[i] == n;
                    if a < j {
                        assert(before[a] == after[a]);
                        assert(d.ways[before[a]].nodes[i] == n);
                    } else {
                        assert(nodes[i] == n);
                    }
                }
            }
        }
        j = j + 1;
    }
    assert(ways@.take(ways@.len() as int) =~= ways@);
    r
}

/// A node is listed among all ways of the store exactly when some way of
/// the store lists it.
pub proof fn lemma_listed_in_store(d: OsmDataView, order: Seq<Id>, n: Id)
    requires
        forall|k: Id| order.contains(k) <==> #[trigger] d.ways.contains_key(k),
    ensures
        listed_in(d, order, n) <==> is_parented(d, n),
{
    if listed_in(d, order, n) {
        let (a, i) = choose|a: int, i: int|
            0 <= a < order.len() && 0 <= i < d.ways[order[a]].nodes.len()
                && #[trigger] d.ways[order[a]].nodes[i] == n;
        assert(order.contains(order[a]));
        assert(lists_at(d, order[a], i, n));
    }
    if is_parented(d, n) {
        let (w, i) = choose|w: Id, i: int| #[trigger] lists_at(d, w, i, n);
        assert(order.contains(w));
        let a = choose|a: int| 0 <= a < order.len() && order[a] == w;
        assert(d.ways[order[a]].nodes[i] == n);
    }
}

/// The nodes of `nodes` that no way of the store lists.
pub fn compute_orphans(data: &OsmData, nodes: &Vec<Id>) -> (r: Vec<Id>)
    requires
        data.wf(),
    ensures
        r@ == orphans_of(data@, nodes@),
{
    proof {
        data.lemma_wf();
    }
    let ghost d = data@;
    let parented = collect_listed(data, data.way_ids());
    let ghost pred = |n: Id| !is_parented(d, n);
    let mut r: Vec<Id> = Vec::new();
    let mut i: usize = 0;
    assert(nodes@.take(0).filter(pred) =~= Seq::<Id>::empty()) by {
        reveal(Seq::filter);
    }
    while i < nodes.len()
        invariant
            i <= nodes@.len(),
            d == data@,
            pred == |n: Id| !is_parented(d, n),
            forall|k: Id| data.way_order().contains(k) <==> #[trigger] d.ways.contains_key(k),
            forall|n: Id| parented@.contains(n) <==> listed_in(d, data.way_order(), n),
            r@ == nodes@.take(i as int).filter(pred),
        decreases nodes@.len() - i,
    {
        let n = nodes[i];
        proof {
            lemma_listed_in_store(d, data.way_order(), n);
            assert(nodes@.take(i + 1) =~= nodes@.take(i as int).push(n));
            nodes@.take(i as int).lemma_filter_push(n, pred);
        }
        if !parented.contains(&n) {
            r.push(n);
        }
        i = i + 1;
    }
    assert(nodes@.take(nodes@.len() as int) =~= nodes@);
    r
}

/// The ways of `ways` parted into lines and areas.
pub fn classify_ways(data: &OsmData, ways: &Vec<Id>) -> (r: (Vec<Id>, Vec<Id>))
    requires
        data.wf(),
        known_ways(data@, ways@),
    ensures
        r.0@ == line_ways(data@, ways@),
        r.1@ == area_ways(data@, ways@),
{
    let ghost d = data@;
    let ghost is_line = |w: Id| !way_is_area(d.ways[w]);
    let ghost is_area = |w: Id| way_is_area(d.ways[w]);
    let mut lines: Vec<Id> = Vec::new();
    let mut areas: Vec<Id> = Vec::new();
    let mut i: usize = 0;
    proof {
        reveal(Seq::filter);
        assert(ways@.take(0).filter(is_line) =~= Seq::<Id>::empty());
        assert(ways@.take(0).filter(is_area) =~= Seq::<Id>::empty());
    }
    while i < ways.len()
        invariant
            i <= ways@.len(),
            d == data@,
            known_ways(d, ways@),
            is_line == |w: Id| !way_is_area(d.ways[w]),
            is_area == |w: Id| way_is_area(d.ways[w]),
            lines@ == ways@.take(i as int).filter(is_line),
            areas@ == ways@.take(i as int).filter(is_area),
        decreases ways@.len() - i,
    {
        let w = ways[i];
        let way = data.way(w).unwrap();
        proof {
            assert(ways@.take(i + 1) =~= ways@.take(i as int).push(w));
            ways@.take(i as int).lemma_filter_push(w, is_line);
            ways@.take(i as int).lemma_filter_push(w, is_area);
        }
        if is_way_area(way) {
            areas.push(w);
        } else {
            lines.push(w);
        }
        i = i + 1;
    }
    assert(ways@.take(ways@.len() as int) =~= ways@);
    (lines, areas)
}

/// Filtering a list without repeats of known identifiers leaves such a list.
pub proof fn lemma_filter_ids(s: Seq<Id>, pred: spec_fn(Id) -> bool)
    requires
        s.no_duplicates(),
    ensures
        s.filter(pred).no_duplicates(),
        forall|x: Id| s.filter(pred).contains(x) <==> s.contains(x) && pred(x),
{
    let ident = |id: Id| id;
    assert(s.map_values(ident) =~= s);
    lemma_filter_keeps_distinct(s, pred, ident);
    assert(s.filter(pred).map_values(ident) =~= s.filter(pred));
}

/// The end nodes of the ways `ways`, way after way.
pub fn collect_endpoints(data: &OsmData, ways: &Vec<Id>) -> (r: Vec<Id>)
    requires
        data.wf(),
        known_ways(data@, ways@),
        ways_closed(data@, ways@),
    ensures
        r@ == way_endpoints(data@, ways@),
        known_nodes(data@, r@),
{
    proof {
        data.lemma_wf();
    }
    let ghost d = data@;
    let mut r: Vec<Id> = Vec::new();
    let mut i: usize = 0;
    while i < ways.len()
        invariant
            i <= ways@.len(),
            d == data@,
            ways_closed(d, ways@),
            known_ways(d, ways@),
            r@ == way_endpoints(d, ways@.take(i as int)),
            known_nodes(d, r@),
        decreases ways@.len() - i,
    {
        let w = ways[i];
        let way = data.way(w).unwrap();
        let n = way.nodes.len();
        proof {
            assert(ways@.take(i + 1).drop_last() =~= ways@.take(i as int));
            assert(ways@.take(i + 1).last() == w);
        }
        let ghost before = r@;
        if n == 1 {
            r.push(way.nodes[0]);
            assert(r@ =~= before + endpoints(d.ways[w].nodes));
        } else if n > 1 {
            r.push(way.nodes[0]);
            r.push(way.nodes[n - 1]);
            assert(r@ =~= before + endpoints(d.ways[w].nodes));
        } else {
            assert(r@ =~= before + endpoints(d.ways[w].nodes));
        }
        i = i + 1;
    }
    assert(ways@.take(ways@.len() as int) =~= ways@);
    r
}

/// One number for each position; different positions get different
/// numbers.
pub open spec fn spec_cell_key(c: Coordinate) -> u64 {
    ((c.lat + 0x8000_0000) * 0x1_0000_0000 + (c.lon + 0x8000_0000)) as u64
}

#[verifier::when_used_as_spec(spec_cell_key)]
pub fn cell_key(c: Coordinate) -> (k: u64)
    ensures
        k == spec_cell_key(c),
{
    let a: u64 = (c.lat as i64 + 0x8000_0000) as u64;
    let b: u64 = (c.lon as i64 + 0x8000_0000) as u64;
    a * 0x1_0000_0000 + b
}

/// Different positions get different numbers.
pub proof fn lemma_cell_key(a: Coordinate, b: Coordinate)
    ensures
        spec_cell_key(a) == spec_cell_key(b) <==> a == b,
{
}

/// `positions` holds the numbers of the positions of the nodes `seen`.
pub open spec fn holds_positions(d: OsmDataView, seen: Seq<Id>, positions: Set<u64>) -> bool {
    forall|k: u64|
        positions.contains(k) <==> exists|j: int|
            0 <= j < seen.len() && #[trigger] spec_cell_key(cell(d, seen[j])) == k
}

/// Of the candidates `cands`, those that are the first to stand at their
/// position among the nodes `seen` and the candidates before them;
/// `positions` takes in the positions of the candidates.
fn claim_positions(
    data: &OsmData,
    seen: Ghost<Seq<Id>>,
    cands: &Vec<Id>,
    positions: &mut HashSet<u64>,
) -> (r: Vec<Id>)
    requires
        data.wf(),
        known_nodes(data@, cands@),
        holds_positions(data@, seen@, old(positions)@),
    ensures
        first_claims(data@, seen@ + cands@) == first_claims(data@, seen@) + r@,
        holds_positions(data@, seen@ + cands@, final(positions)@),
        forall|i: int| 0 <= i < r@.len() ==> cands@.contains(#[trigger] r@[i]),
{
    let ghost d = data@;
    let mut r: Vec<Id> = Vec::new();
    let mut i: usize = 0;
    proof {
        assert(seen@ + cands@.take(0) =~= seen@);
        assert(first_claims(d, seen@) + r@ =~= first_claims(d, seen@));
    }
    while i < cands.len()
        invariant
            i <= cands@.len(),
            d == data@,
            known_nodes(d, cands@),
            first_claims(d, seen@ + cands@.take(i as int)) == first_claims(d, seen@) + r@,
            holds_positions(d, seen@ + cands@.take(i as int), positions@),
            forall|a: int| 0 <= a < r@.len() ==> cands@.contains(#[trigger] r@[a]),
        decreases cands@.len() - i,
    {
        let id = cands[i];
        let node = data.node(id).unwrap();
        let key = cell_key(node.pos);
        let ghost before = seen@ + cands@.take(i as int);
        let ghost after = seen@ + cands@.take(i + 1);
        let ghost last = after.len() - 1;
        let ghost held = positions@;
        let ghost kept = r@;
        proof {
            assert(after =~= before.push(id));
            assert(after.drop_last() =~= before);
            assert(claimed_before(d, after, last) <==> held.contains(key)) by {
                if claimed_before(d, after, last) {
                    let j = choose|j: int|
                        0 <= j < last && #[trigger] cell(d, after[j]) == cell(d, after[last]);
                    assert(before[j] == after[j]);
                    assert(spec_cell_key(cell(d, before[j])) == key);
                }
                if held.contains(key) {
                    let j = choose|j: int|
                        0 <= j < before.len() && #[trigger] spec_cell_key(cell(d, before[j]))
                            == key;
                    lemma_cell_key(cell(d, before[j]), cell(d, id));
                    assert(before[j] == after[j]);
                    assert(cell(d, after[j]) == cell(d, after[last]));
                }
            }
        }
        if positions.insert(key) {
            r.push(id);
            assert(first_claims(d, seen@) + r@ =~= (first_claims(d, seen@) + kept).push(id));
        }
        proof {
            assert(cands@[i as int] == id);
            assert forall|k: u64|
                positions@.contains(k) <==> exists|j: int|
                    0 <= j < after.len() && #[trigger] spec_cell_key(cell(d, after[j])) == k by {
                if k == key {
                    assert(spec_cell_key(cell(d, after[last])) == k);
                }
                if held.contains(k) {
                    let j = choose|j: int|
                        0 <= j < before.len() && #[trigger] spec_cell_key(cell(d, before[j])) == k;
                    assert(after[j] == before[j]);
                    assert(spec_cell_key(cell(d, after[j])) == k);
                }
                if exists|j: int|
                    0 <= j < after.len() && #[trigger] spec_cell_key(cell(d, after[j])) == k {
                    let j = choose|j: int|
                        0 <= j < after.len() && #[trigger] spec_cell_key(cell(d, after[j])) == k;
                    if j < last {
                        assert(before[j] == after[j]);
                        assert(spec_cell_key(cell(d, before[j])) == k);
                    }
                }
            }
        }
        i = i + 1;
    }
    assert(cands@.take(cands@.len() as int) =~= cands@);
    r
}

/// Of the nodes `first` and then `second` that stand at one position, the
/// first: the ones kept of `first`, and the ones kept of `second`.
pub fn dedup_two(data: &OsmData, first: &Vec<Id>, second: &Vec<Id>) -> (r: (Vec<Id>, Vec<Id>))
    requires
        data.wf(),
        known_nodes(data@, first@),
        known_nodes(data@, second@),
    ensures
        r.0@ == first_claims(data@, first@),
        r.0@ + r.1@ == first_claims(data@, first@ + second@),
        forall|i: int| 0 <= i < r.0@.len() ==> first@.contains(#[trigger] r.0@[i]),
        forall|i: int| 0 <= i < r.1@.len() ==> second@.contains(#[trigger] r.1@[i]),
{
    let mut positions: HashSet<u64> = HashSet::new();
    let ghost none = Seq::<Id>::empty();
    let kept_first = claim_positions(data, Ghost(none), first, &mut positions);
    proof {
        assert(none + first@ =~= first@);
        assert(first_claims(data@, none) + kept_first@ =~= kept_first@);
    }
    let kept_second = claim_positions(data, Ghost(first@), second, &mut positions);
    (kept_first, kept_second)
}

/// For each node that a way of `ways` lists, the ways that list it.
pub fn compute_usage(data: &OsmData, ways: &Vec<Id>) -> (r: HashMap<Id, Vec<Id>>)
    requires
        data.wf(),
        known_ways(data@, ways@),
    ensures
        forall|n: Id| r@.contains_key(n) <==> usage_of(data@, ways@, n).len() > 0,
        forall|n: Id| #[trigger] r@.contains_key(n) ==> r@[n]@ == usage_of(data@, ways@, n),
{
    let ghost d = data@;
    let mut r: HashMap<Id, Vec<Id>> = HashMap::new();
    let mut j: usize = 0;
    while j < ways.len()
        invariant
            j <= ways@.len(),
            d == data@,
            known_ways(d, ways@),
            forall|n: Id| r@.contains_key(n) <==> usage_of(d, ways@.take(j as int), n).len() > 0,
            forall|n: Id| #[trigger]
                r@.contains_key(n) ==> r@[n]@ == usage_of(d, ways@.take(j as int), n),
        decreases ways@.len() - j,
    {
        let w = ways[j];
        let way = data.way(w).unwrap();
        let ghost nodes = d.ways[w].nodes;
        let ghost before = ways@.take(j as int);
        let mut k: usize = 0;
        assert(forall|n: Id| #[trigger]
            occurrences(nodes.take(0), n, w) =~= Seq::<Id>::empty());
        while k < way.nodes.len()
            invariant
                k <= way@.nodes.len(),
                way@.nodes == nodes,
                forall|n: Id|
                    r@.contains_key(n) <==> (usage_of(d, before, n) + occurrences(
                        nodes.take(k as int),
                        n,
                        w,
                    )).len() > 0,
                forall|n: Id| #[trigger]
                    r@.contains_key(n) ==> r@[n]@ == usage_of(d, before, n) + occurrences(
                        nodes.take(k as int),
                        n,
                        w,
                    ),
            decreases way@.nodes.len() - k,
        {
            let x = way.nodes[k];
            let ghost t0 = nodes.take(k as int);
            let ghost t1 = nodes.take(k + 1);
            let ghost old_map = r@;
            proof {
                assert(t1.drop_last() =~= t0);
                assert(t1.last() == x);
            }
            let mut list = match r.remove(&x) {
                Some(list) => list,
                None => Vec::new(),
            };
            let ghost old_list = list@;
            list.push(w);
            r.insert(x, list);
            proof {
                assert(old_list =~= usage_of(d, before, x) + occurrences(t0, x, w));
                assert forall|n: Id|
                    r@.contains_key(n) <==> (usage_of(d, before, n) + occurrences(t1, n, w)).len()
                        > 0 by {
                    if n != x {
                        assert(r@.contains_key(n) == old_map.contains_key(n));
                    }
                }
                assert forall|n: Id| #[trigger] r@.contains_key(n) implies r@[n]@ == usage_of(
                    d,
                    before,
                    n,
                ) + occurrences(t1, n, w) by {
                    if n == x {
                        assert(r@[n]@ =~= usage_of(d, before, n) + occurrences(t1, n, w));
                    } else {
                        assert(old_map.contains_key(n));
                        assert(r@[n] == old_map[n]);
                    }
                }
            }
            k = k + 1;
        }
        proof {
            let after = ways@.take(j + 1);
            assert(nodes.take(nodes.len() as int) =~= nodes);
            assert(after.drop_last() =~= before);
            assert(after.last() == w);
        }
        j = j + 1;
    }
    assert(ways@.take(ways@.len() as int) =~= ways@);
    r
}

/// The screen positions of the nodes that the ways `ways` list and of the
/// nodes `extra`, each as `project` gives it.
pub fn project_nodes<F: Fn(Coordinate) -> Pos2>(
    data: &OsmData,
    ways: &Vec<Id>,
    extra: &Vec<Id>,
    project: &F,
) -> (r: HashMap<Id, Pos2>)
    requires
        data.wf(),
        known_ways(data@, ways@),
        ways_closed(data@, ways@),
        known_nodes(data@, extra@),
        forall|c: Coordinate| project.requires((c,)),
    ensures
        forall|n: Id|
            #![trigger r@.contains_key(n)]
            r@.contains_key(n) <==> listed_in(data@, ways@, n) || extra@.contains(n),
        forall|n: Id| #[trigger]
            r@.contains_key(n) ==> project.ensures((cell(data@, n),), r@[n]),
{
    proof {
        data.lemma_wf();
    }
    let ghost d = data@;
    let mut r: HashMap<Id, Pos2> = HashMap::new();
    let mut j: usize = 0;
    while j < ways.len()
        invariant
            j <= ways@.len(),
            d == data@,
            ways_closed(d, ways@),
            known_ways(d, ways@),
            forall|c: Coordinate| project.requires((c,)),
            forall|n: Id| r@.contains_key(n) <==> listed_in(d, ways@.take(j as int), n),
            forall|n: Id| #[trigger] r@.contains_key(n) ==> project.ensures((cell(d, n),), r@[n]),
        decreases ways@.len() - j,
    {
        let w = ways[j];
        let way = data.way(w).unwrap();
        let ghost nodes = d.ways[w].nodes;
        let ghost before = ways@.take(j as int);
        let mut k: usize = 0;
        while k < way.nodes.len()
            invariant
                k <= way@.nodes.len(),
                d == data@,
                ways_closed(d, ways@),
                j < ways@.len(),
                ways@[j as int] == w,
                d.ways.contains_key(w),
                way@.nodes == nodes,
                nodes == d.ways[w].nodes,
                forall|c: Coordinate| project.requires((c,)),
                forall|n: Id|
                    r@.contains_key(n) <==> listed_in(d, before, n) || nodes.take(k as int).contains(
                        n,
                    ),
                forall|n: Id| #[trigger]
                    r@.contains_key(n) ==> project.ensures((cell(d, n),), r@[n]),
            decreases way@.nodes.len() - k,
        {
            let x = way.nodes[k];
            assert(d.nodes.contains_key(d.ways[ways@[j as int]].nodes[k as int]));
            assert(d.nodes.contains_key(nodes[k as int]));
            let node = data.node(x).unwrap();
            let pos = project(node.pos);
            let ghost old_map = r@;
            r.insert(x, pos);
            proof {
                let t0 = nodes.take(k as int);
                let t1 = nodes.take(k + 1);
                assert(t1 =~= t0.push(x));
                assert(r@ == old_map.insert(x, pos));
                assert forall|n: Id|
                    r@.contains_key(n) <==> listed_in(d, before, n) || t1.contains(n) by {
                    assert(old_map.contains_key(n) <==> listed_in(d, before, n) || t0.contains(n));
                    if n == x {
                        assert(t1[k as int] == x);
                        assert(t1.contains(n));
                        assert(r@.contains_key(n));
                    } else {
                        assert(r@.contains_key(n) == old_map.contains_key(n));
                        if t1.contains(n) {
                            let i = choose|i: int| 0 <= i < t1.len() && t1[i] == n;
                            assert(i < k);
                            assert(t0[i] == n);
                            assert(t0.contains(n));
                        }
                        if t0.contains(n) {
                            let i = choose|i: int| 0 <= i < t0.len() && t0[i] == n;
                            assert(t1[i] == n);
                            assert(t1.contains(n));
                        }
                    }
                }
            }
            k = k + 1;
        }
        proof {
            let after = ways@.take(j + 1);
            assert(nodes.take(nodes.len() as int) =~= nodes);
            assert(after =~= before.push(w));
            assert forall|n: Id| r@.contains_key(n) <==> listed_in(d, after, n) by {
                if listed_in(d, before, n) {
                    let (a, i) = choose|a: int, i: int|
                        0 <= a < before.len() && 0 <= i < d.ways[before[a]].nodes.len()
                            && #[trigger] d.ways[before[a]].nodes[i] == n;
                    assert(after[a] == before[a]);
                    assert(d.ways[after[a]].nodes[i] == n);
                }
                if nodes.contains(n) {
                    let i = choose|i: int| 0 <= i < nodes.len() && nodes[i] == n;
                    assert(after[j as int] == w);
                    assert(d.ways[after[j as int]].nodes[i] == n);
                }
                if listed_in(d, after, n) {
                    let (a, i) = choose|a: int, i: int|
                        0 <= a < after.len() && 0 <= i < d.ways[after[a]].nodes.len()
                            && #[trigger] d.ways[after[a]].nodes[i] == n;
                    if a < j {
                        assert(before[a] == after[a]);
                        assert(d.ways[before[a]].nodes[i] == n);
                    } else {
                        assert(nodes[i] == n);
                    }
                }
            }
        }
        j = j + 1;
    }
    assert(ways@.take(ways@.len() as int) =~= ways@);
    let mut i: usize = 0;
    while i < extra.len()
        invariant
            i <= extra@.len(),
            d == data@,
            known_nodes(d, extra@),
            forall|c: Coordinate| project.requires((c,)),
            forall|n: Id|
                r@.contains_key(n) <==> listed_in(d, ways@, n) || extra@.take(i as int).contains(n),
            forall|n: Id| #[trigger] r@.contains_key(n) ==> project.ensures((cell(d, n),), r@[n]),
        decreases extra@.len() - i,
    {
        let x = extra[i];
        let node = data.node(x).unwrap();
        let pos = project(node.pos);
        r.insert(x, pos);
        proof {
            let t0 = extra@.take(i as int);
            let t1 = extra@.take(i + 1);
            assert(t1 =~= t0.push(x));
            assert forall|n: Id|
                r@.contains_key(n) <==> listed_in(d, ways@, n) || t1.contains(n) by {
                if t1.contains(n) {
                    let a = choose|a: int| 0 <= a < t1.len() && t1[a] == n;
                    if a < i {
                        assert(t0[a] == n);
                    }
                }
                if t0.contains(n) {
                    let a = choose|a: int| 0 <= a < t0.len() && t0[a] == n;
                    assert(t1[a] == n);
                }
                if n == x {
                    assert(t1[i as int] == x);
                }
            }
        }
        i = i + 1;
    }
    assert(extra@.take(extra@.len() as int) =~= extra@);
    r
}

/// Every node of `nodes` has a projected position.
pub open spec fn all_projected(projected: Map<Id, Pos2>, nodes: Seq<Id>) -> bool {
    forall|i: int| 0 <= i < nodes.len() ==> projected.contains_key(#[trigger] nodes[i])
}

/// The projected positions of `nodes`, in order.
pub open spec fn points_of(projected: Map<Id, Pos2>, nodes: Seq<Id>) -> Seq<Pos2> {
    nodes.map_values(|n: Id| projected[n])
}

/// Whether every node of `nodes` has a projected position.
pub fn is_all_projected(projected: &HashMap<Id, Pos2>, nodes: &Vec<Id>) -> (r: bool)
    ensures
        r == all_projected(projected@, nodes@),
{
    let mut i: usize = 0;
    while i < nodes.len()
        invariant
            i <= nodes@.len(),
            forall|j: int| 0 <= j < i ==> projected@.contains_key(#[trigger] nodes@[j]),
        decreases nodes@.len() - i,
    {
        if !projected.contains_key(&nodes[i]) {
            return false;
        }
        i = i + 1;
    }
    true
}

/// The projected positions of `nodes`, in order.
pub fn collect_points(projected: &HashMap<Id, Pos2>, nodes: &Vec<Id>) -> (r: Vec<Pos2>)
    requires
        all_projected(projected@, nodes@),
    ensures
        r@ == points_of(projected@, nodes@),
{
    let mut r: Vec<Pos2> = Vec::new();
    let mut i: usize = 0;
    while i < nodes.len()
        invariant
            i <= nodes@.len(),
            all_projected(projected@, nodes@),
            r@ == points_of(projected@, nodes@.take(i as int)),
        decreases nodes@.len() - i,
    {
        assert(projected@.contains_key(nodes@[i as int]));
        let p = *projected.get(&nodes[i]).unwrap();
        r.push(p);
        assert(r@ =~= points_of(projected@, nodes@.take(i + 1)));
        i = i + 1;
    }
    assert(nodes@.take(nodes@.len() as int) =~= nodes@);
    r
}

/// `points` without each point that repeats the one before it.
pub open spec fn without_repeats(points: Seq<Pos2>) -> Seq<Pos2>
    decreases points.len(),
{
    if points.len() == 0 {
        points
    } else {
        let before = without_repeats(points.drop_last());
        if before.len() > 0 && before.last() == points.last() {
            before
        } else {
            before.push(points.last())
        }
    }
}

/// The corners of the closed polygon that `points` describe: `points`
/// without each point that repeats the one before it, and without the last
/// of these where it repeats the first.
pub open spec fn path_of(points: Seq<Pos2>) -> Seq<Pos2> {
    let corners = without_repeats(points);
    if corners.len() >= 2 && corners[0] == corners[corners.len() - 1] {
        corners.drop_last()
    } else {
        corners
    }
}

/// The corners of the closed polygon that `points` describe.
pub fn close_path(points: Vec<Pos2>) -> (r: Vec<Pos2>)
    ensures
        r@ == path_of(points@),
{
    let mut corners: Vec<Pos2> = Vec::new();
    let mut i: usize = 0;
    assert(points@.take(0) =~= Seq::<Pos2>::empty());
    while i < points.len()
        invariant
            i <= points@.len(),
            corners@ == without_repeats(points@.take(i as int)),
        decreases points@.len() - i,
    {
        let p = points[i];
        let n = corners.len();
        proof {
            assert(points@.take(i + 1).drop_last() =~= points@.take(i as int));
            assert(points@.take(i + 1).last() == p);
        }
        if n == 0 || corners[n - 1].x != p.x || corners[n - 1].y != p.y {
            corners.push(p);
        }
        i = i + 1;
    }
    assert(points@.take(points@.len() as int) =~= points@);
    let n = corners.len();
    if n >= 2 && corners[0].x == corners[n - 1].x && corners[0].y == corners[n - 1].y {
        corners.pop();
    }
    corners
}

/// Every node of every way of `ways` has a projected position.
pub open spec fn ways_projected(d: OsmDataView, projected: Map<Id, Pos2>, ways: Seq<Id>) -> bool {
    forall|a: int| 0 <= a < ways.len() ==> all_projected(projected, d.ways[#[trigger] ways[a]].nodes)
}

/// The mesh of way `a`, made of the projected positions of its nodes.
pub open spec fn way_mesh_of(d: OsmDataView, projected: Map<Id, Pos2>, a: Id) -> Option<MeshView> {
    mesh_of(path_of(points_of(projected, d.ways[a].nodes)))
}

/// The meshes of the areas `areas`. An area whose polygon is not
/// `tessellable`, or on which the tessellator fails, has none. The indices of
/// each mesh come in threes, and each names a vertex of the mesh.
pub fn compute_meshes(data: &OsmData, areas: &Vec<Id>, projected: &HashMap<Id, Pos2>) -> (r:
    HashMap<Id, MeshData>)
    requires
        data.wf(),
        known_ways(data@, areas@),
        ways_projected(data@, projected@, areas@),
    ensures
        forall|a: Id|
            r@.contains_key(a) <==> areas@.contains(a) && way_mesh_of(
                data@,
                projected@,
                a,
            ).is_some(),
        forall|a: Id| #[trigger]
            r@.contains_key(a) ==> Some(r@[a]@) == way_mesh_of(data@, projected@, a) && r@[a]@.indices.len()
                % 3 == 0 && indices_in_range(r@[a]@),
{
    let ghost d = data@;
    let ghost proj = projected@;
    let mut r: HashMap<Id, MeshData> = HashMap::new();
    let mut i: usize = 0;
    while i < areas.len()
        invariant
            i <= areas@.len(),
            d == data@,
            proj == projected@,
            known_ways(d, areas@),
            ways_projected(d, proj, areas@),
            forall|a: Id|
                r@.contains_key(a) <==> areas@.take(i as int).contains(a) && way_mesh_of(
                    d,
                    proj,
                    a,
                ).is_some(),
            forall|a: Id| #[trigger]
                r@.contains_key(a) ==> Some(r@[a]@) == way_mesh_of(d, proj, a) && r@[a]@.indices.len()
                    % 3 == 0 && indices_in_range(r@[a]@),
        decreases areas@.len() - i,
    {
        let id = areas[i];
        let way = data.way(id).unwrap();
        assert(all_projected(proj, d.ways[areas@[i as int]].nodes));
        let path = close_path(collect_points(projected, &way.nodes));
        let ghost old_map = r@;
        match tessellate(&path) {
            Some(mesh) => {
                r.insert(id, mesh);
            },
            None => {},
        }
        proof {
            let t0 = areas@.take(i as int);
            let t1 = areas@.take(i + 1);
            assert(t1 =~= t0.push(id));
            assert forall|a: Id|
                r@.contains_key(a) <==> t1.contains(a) && way_mesh_of(d, proj, a).is_some() by {
                if t1.contains(a) {
                    let m = choose|m: int| 0 <= m < t1.len() && t1[m] == a;
                    if m < i {
                        assert(t0[m] == a);
                    }
                }
                if t0.contains(a) {
                    let m = choose|m: int| 0 <= m < t0.len() && t0[m] == a;
                    assert(t1[m] == a);
                }
                if a == id {
                    assert(t1[i as int] == id);
                }
            }
        }
        i = i + 1;
    }
    assert(areas@.take(areas@.len() as int) =~= areas@);
    r
}

/// Each area of `areas` with twice its signed area on screen, which is a
/// whole number: the paint order is made by it, so that half a square pixel
/// tells two areas apart.
pub open spec fn doubled_sizes(d: OsmDataView, projected: Map<Id, Pos2>, areas: Seq<Id>) -> Seq<
    AreaEntry,
> {
    areas.map_values(|a: Id| (a, doubled_area(points_of(projected, d.ways[a].nodes)) as i128))
}

/// Each area of `areas` with its signed area on screen in square pixels,
/// a half rounded away from zero.
pub open spec fn area_sizes(d: OsmDataView, projected: Map<Id, Pos2>, areas: Seq<Id>) -> Seq<
    AreaEntry,
> {
    areas.map_values(|a: Id| (a, signed_area(points_of(projected, d.ways[a].nodes)) as i128))
}

/// The paint order of the areas `areas`: each with its signed area on
/// screen in square pixels, a half rounded away from zero, and the largest
/// first. The order is that of the areas before rounding; areas of one size
/// keep the order that they have in `areas`.
pub open spec fn paint_order_of(d: OsmDataView, projected: Map<Id, Pos2>, areas: Seq<Id>) -> Seq<
    AreaEntry,
> {
    order_by_area(doubled_sizes(d, projected, areas)).map_values(|e: AreaEntry| halved(e))
}

/// Each area of `areas` with twice its signed area on screen.
pub fn compute_doubled_sizes(data: &OsmData, areas: &Vec<Id>, projected: &HashMap<Id, Pos2>) -> (r:
    Vec<AreaEntry>)
    requires
        data.wf(),
        known_ways(data@, areas@),
        ways_projected(data@, projected@, areas@),
    ensures
        r@ == doubled_sizes(data@, projected@, areas@),
{
    let ghost d = data@;
    let ghost proj = projected@;
    let mut r: Vec<AreaEntry> = Vec::new();
    let mut i: usize = 0;
    while i < areas.len()
        invariant
            i <= areas@.len(),
            d == data@,
            proj == projected@,
            known_ways(d, areas@),
            ways_projected(d, proj, areas@),
            r@ == doubled_sizes(d, proj, areas@.take(i as int)),
        decreases areas@.len() - i,
    {
        let id = areas[i];
        let way = data.way(id).unwrap();
        assert(all_projected(proj, d.ways[areas@[i as int]].nodes));
        let points = collect_points(projected, &way.nodes);
        r.push((id, doubled_area_size(&points)));
        assert(r@ =~= doubled_sizes(d, proj, areas@.take(i + 1)));
        i = i + 1;
    }
    assert(areas@.take(areas@.len() as int) =~= areas@);
    r
}

/// The paint order of the areas `areas`.
pub fn compute_paint_order(data: &OsmData, areas: &Vec<Id>, projected: &HashMap<Id, Pos2>) -> (r:
    Vec<AreaEntry>)
    requires
        data.wf(),
        known_ways(data@, areas@),
        ways_projected(data@, projected@, areas@),
    ensures
        r@ == paint_order_of(data@, projected@, areas@),
{
    let sorted = sort_by_area(&compute_doubled_sizes(data, areas, projected));
    let ghost half = |e: AreaEntry| halved(e);
    let mut r: Vec<AreaEntry> = Vec::new();
    let mut i: usize = 0;
    while i < sorted.len()
        invariant
            i <= sorted@.len(),
            half == |e: AreaEntry| halved(e),
            r@ == sorted@.take(i as int).map_values(half),
        decreases sorted@.len() - i,
    {
        let e = sorted[i];
        r.push((e.0, halve(e.1)));
        assert(r@ =~= sorted@.take(i + 1).map_values(half));
        i = i + 1;
    }
    assert(sorted@.take(sorted@.len() as int) =~= sorted@);
    r
}

} // verus!
