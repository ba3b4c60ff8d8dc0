//! What each derived cache holds, stated over the feature store and the
//! lists of features in view.

use crate::data::{is_way_closed, way_closed, Coordinate, Id, OsmData, OsmDataView, Way, WayView};
use crate::tags::{has_key, str_eq, value_of, TagSeq};
use vstd::prelude::*;

verus! {

// ---------------------------------------------------------------------
// Way / area classification
// ---------------------------------------------------------------------
/// At least three different identifiers occur in `nodes`.
pub open spec fn has_three_distinct(nodes: Seq<Id>) -> bool {
    exists|i: int, j: int, k: int|
        0 <= i < j < k < nodes.len() && #[trigger] distinct3(nodes[i], nodes[j], nodes[k])
}

/// `a`, `b` and `c` differ from each other.
pub open spec fn distinct3(a: Id, b: Id, c: Id) -> bool {
    a != b && a != c && b != c
}

/// Whether at least three different identifiers occur in `nodes`.
pub fn has_three_distinct_nodes(nodes: &Vec<Id>) -> (r: bool)
    ensures
        r == has_three_distinct(nodes@),
{
    let n = nodes.len();
    if n < 3 {
        return false;
    }
    let first = nodes[0];
    let mut j: usize = 1;
    while j < n && nodes[j] == first
        invariant
            1 <= j <= n,
            n == nodes@.len(),
            first == nodes@[0],
            forall|a: int| 0 <= a < j ==> nodes@[a] == first,
        decreases n - j,
    {
        j = j + 1;
    }
    if j == n {
        assert forall|a: int, b: int, c: int| 0 <= a < b < c < nodes@.len() implies !distinct3(
            nodes@[a],
            nodes@[b],
            nodes@[c],
        ) by {}
        return false;
    }
    let second = nodes[j];
    let mut k: usize = j + 1;
    while k < n && (nodes[k] == first || nodes[k] == second)
        invariant
            j < k <= n,
            n == nodes@.len(),
            first == nodes@[0],
            second == nodes@[j as int],
            first != second,
            forall|a: int| 0 <= a < k ==> nodes@[a] == first || nodes@[a] == second,
        decreases n - k,
    {
        k = k + 1;
    }
    if k == n {
        assert forall|a: int, b: int, c: int| 0 <= a < b < c < nodes@.len() implies !distinct3(
            nodes@[a],
            nodes@[b],
            nodes@[c],
        ) by {}
        return false;
    }
    assert(distinct3(nodes@[0], nodes@[j as int], nodes@[k as int]));
    true
}

/// The tags say that a closed way is an area: `area=yes` says so,
/// `area=no` says not, and otherwise one of the keys that mark areas does.
pub open spec fn area_tagged(tags: TagSeq) -> bool {
    if value_of(tags, "area"@) == Some("yes"@) {
        true
    } else if value_of(tags, "area"@) == Some("no"@) {
        false
    } else {
        ||| has_key(tags, "building"@)
        ||| has_key(tags, "landuse"@)
        ||| has_key(tags, "natural"@)
        ||| has_key(tags, "leisure"@)
        ||| has_key(tags, "amenity"@)
        ||| has_key(tags, "playground"@)
    }
}

/// A way is an area when it is closed, lists at least three different
/// nodes, has tags, and its tags say so.
pub open spec fn way_is_area(w: WayView) -> bool {
    &&& way_closed(w.nodes)
    &&& has_three_distinct(w.nodes)
    &&& w.tags.len() > 0
    &&& area_tagged(w.tags)
}

/// Whether `way` is an area.
pub fn is_way_area(way: &Way) -> (r: bool)
    ensures
        r == way_is_area(way@),
{
    if !is_way_closed(way) || !has_three_distinct_nodes(&way.nodes) || way.tags.is_empty() {
        return false;
    }
    match way.tags.get("area") {
        Some(area) => {
            if str_eq(area.as_str(), "yes") {
                return true;
            }
            if str_eq(area.as_str(), "no") {
                return false;
            }
        },
        None => {},
    }
    way.tags.contains_key("building") || way.tags.contains_key("landuse")
        || way.tags.contains_key("natural") || way.tags.contains_key("leisure")
        || way.tags.contains_key("amenity") || way.tags.contains_key("playground")
}

/// The ways of `ways` that are lines, in order.
pub open spec fn line_ways(d: OsmDataView, ways: Seq<Id>) -> Seq<Id> {
    ways.filter(|w: Id| !way_is_area(d.ways[w]))
}

/// The ways of `ways` that are areas, in order.
pub open spec fn area_ways(d: OsmDataView, ways: Seq<Id>) -> Seq<Id> {
    ways.filter(|w: Id| way_is_area(d.ways[w]))
}

// ---------------------------------------------------------------------
// Orphan nodes
// ---------------------------------------------------------------------
/// Some way of the store lists node `n`.
pub open spec fn is_parented(d: OsmDataView, n: Id) -> bool {
    exists|w: Id, i: int| #[trigger]
        lists_at(d, w, i, n)
}

/// Way `w` of the store lists node `n` at position `i`.
pub open spec fn lists_at(d: OsmDataView, w: Id, i: int, n: Id) -> bool {
    d.ways.contains_key(w) && 0 <= i < d.ways[w].nodes.len() && d.ways[w].nodes[i] == n
}

/// The nodes of `nodes` that no way of the store lists, in order.
pub open spec fn orphans_of(d: OsmDataView, nodes: Seq<Id>) -> Seq<Id> {
    nodes.filter(|n: Id| !is_parented(d, n))
}

// ---------------------------------------------------------------------
// Node deduplication
// ---------------------------------------------------------------------
/// The end nodes of a way: none for an empty way, the one node of a way of
/// one node, else the first and the last.
pub open spec fn endpoints(nodes: Seq<Id>) -> Seq<Id> {
    if nodes.len() == 0 {
        Seq::empty()
    } else if nodes.len() == 1 {
        seq![nodes[0]]
    } else {
        seq![nodes[0], nodes[nodes.len() - 1]]
    }
}

/// The end nodes of the ways `ways`, way after way.
pub open spec fn way_endpoints(d: OsmDataView, ways: Seq<Id>) -> Seq<Id>
    decreases ways.len(),
{
    if ways.len() == 0 {
        Seq::empty()
    } else {
        way_endpoints(d, ways.drop_last()) + endpoints(d.ways[ways.last()].nodes)
    }
}

/// The cell, 1e-7 degree wide, of the grid on which nodes are told apart:
/// the position of node `n`.
pub open spec fn cell(d: OsmDataView, n: Id) -> Coordinate {
    d.nodes[n].pos
}

/// Some candidate before position `i` stands where candidate `i` stands.
pub open spec fn claimed_before(d: OsmDataView, cands: Seq<Id>, i: int) -> bool {
    exists|j: int| 0 <= j < i && #[trigger] cell(d, cands[j]) == cell(d, cands[i])
}

/// The candidates that are the first to stand at their position, in order.
pub open spec fn first_claims(d: OsmDataView, cands: Seq<Id>) -> Seq<Id>
    decreases cands.len(),
{
    if cands.len() == 0 {
        Seq::empty()
    } else if claimed_before(d, cands, cands.len() - 1) {
        first_claims(d, cands.drop_last())
    } else {
        first_claims(d, cands.drop_last()).push(cands.last())
    }
}

/// Of the candidates that stand at one position, exactly the first is a
/// first claim: every first claim is a candidate, no two first claims stand
/// at one position, and every candidate's position is that of a first claim.
pub proof fn lemma_first_claims(d: OsmDataView, cands: Seq<Id>)
    ensures
        forall|x: Id| #[trigger] first_claims(d, cands).contains(x) ==> cands.contains(x),
        forall|a: int, b: int|
            0 <= a < b < first_claims(d, cands).len() ==> cell(
                d,
                #[trigger] first_claims(d, cands)[a],
            ) != cell(d, #[trigger] first_claims(d, cands)[b]),
        forall|i: int|
            0 <= i < cands.len() ==> exists|a: int|
                0 <= a < first_claims(d, cands).len() && cell(
                    d,
                    #[trigger] first_claims(d, cands)[a],
                ) == cell(d, #[trigger] cands[i]),
        first_claims(d, cands).no_duplicates(),
    decreases cands.len(),
{
    let f = first_claims(d, cands);
    if cands.len() > 0 {
        let prev = cands.drop_last();
        let g = first_claims(d, prev);
        let last = cands.last();
        let n = cands.len() - 1;
        lemma_first_claims(d, prev);
        assert forall|x: Id| #[trigger] f.contains(x) implies cands.contains(x) by {
            let m = choose|m: int| 0 <= m < f.len() && f[m] == x;
            if m < g.len() {
                assert(g[m] == x);
                assert(g.contains(x));
                assert(prev.contains(x));
                let i = choose|i: int| 0 <= i < prev.len() && prev[i] == x;
                assert(cands[i] == x);
            } else {
                assert(x == last);
                assert(cands[n] == x);
            }
        }
        assert forall|i: int| 0 <= i < cands.len() implies exists|a: int|
            0 <= a < f.len() && cell(d, #[trigger] f[a]) == cell(d, #[trigger] cands[i]) by {
            if i < n {
                assert(prev[i] == cands[i]);
                let a = choose|a: int|
                    0 <= a < g.len() && cell(d, #[trigger] g[a]) == cell(d, prev[i]);
                assert(f[a] == g[a]);
            } else if claimed_before(d, cands, n) {
                let j = choose|j: int|
                    0 <= j < n && #[trigger] cell(d, cands[j]) == cell(d, cands[n]);
                assert(prev[j] == cands[j]);
                let a = choose|a: int|
                    0 <= a < g.len() && cell(d, #[trigger] g[a]) == cell(d, prev[j]);
                assert(f[a] == g[a]);
            } else {
                assert(f[f.len() - 1] == last);
            }
        }
        if !claimed_before(d, cands, n) {
            assert forall|a: int, b: int| 0 <= a < b < f.len() implies cell(d, #[trigger] f[a])
                != cell(d, #[trigger] f[b]) by {
                if b == f.len() - 1 {
                    assert(f[a] == g[a]);
                    assert(g.contains(g[a]));
                    assert(prev.contains(g[a]));
                    let j = choose|j: int| 0 <= j < prev.len() && prev[j] == g[a];
                    assert(cands[j] == prev[j]);
                    if cell(d, f[a]) == cell(d, f[b]) {
                        assert(cell(d, cands[j]) == cell(d, cands[n]));
                        assert(false);
                    }
                } else {
                    assert(f[a] == g[a] && f[b] == g[b]);
                }
            }
        }
        assert forall|a: int, b: int| 0 <= a < f.len() && 0 <= b < f.len() && a != b implies f[a]
            != f[b] by {
            if a < b {
                assert(cell(d, f[a]) != cell(d, f[b]));
            } else {
                assert(cell(d, f[b]) != cell(d, f[a]));
            }
        }
    }
}

// ---------------------------------------------------------------------
// Node usage
// ---------------------------------------------------------------------
/// `w` once for each time that `nodes` lists `n`.
pub open spec fn occurrences(nodes: Seq<Id>, n: Id, w: Id) -> Seq<Id>
    decreases nodes.len(),
{
    if nodes.len() == 0 {
        Seq::empty()
    } else if nodes.last() == n {
        occurrences(nodes.drop_last(), n, w).push(w)
    } else {
        occurrences(nodes.drop_last(), n, w)
    }
}

/// The ways of `ways` that list node `n`, in order, each once for each
/// time that it lists the node.
pub open spec fn usage_of(d: OsmDataView, ways: Seq<Id>, n: Id) -> Seq<Id>
    decreases ways.len(),
{
    if ways.len() == 0 {
        Seq::empty()
    } else {
        usage_of(d, ways.drop_last(), n) + occurrences(d.ways[ways.last()].nodes, n, ways.last())
    }
}

/// A way that lists a node is in the node's usage.
pub proof fn lemma_occurrences(nodes: Seq<Id>, n: Id, w: Id)
    ensures
        occurrences(nodes, n, w).len() > 0 <==> nodes.contains(n),
        forall|i: int|
            0 <= i < occurrences(nodes, n, w).len() ==> #[trigger] occurrences(nodes, n, w)[i] == w,
    decreases nodes.len(),
{
    if nodes.len() > 0 {
        let t = nodes.drop_last();
        lemma_occurrences(t, n, w);
        if nodes.contains(n) && nodes.last() != n {
            let i = choose|i: int| 0 <= i < nodes.len() && nodes[i] == n;
            assert(t[i] == n);
        }
        if t.contains(n) {
            let i = choose|i: int| 0 <= i < t.len() && t[i] == n;
            assert(nodes[i] == n);
        }
        if nodes.last() == n {
            assert(nodes[nodes.len() - 1] == n);
        }
    }
}

/// Some way of `ways` lists node `n`.
pub open spec fn listed_in(d: OsmDataView, ways: Seq<Id>, n: Id) -> bool {
    exists|a: int, i: int|
        0 <= a < ways.len() && 0 <= i < d.ways[ways[a]].nodes.len() && #[trigger] d.ways[ways[a]].nodes[i]
            == n
}

/// A node has a usage exactly when a way of the list lists it.
pub proof fn lemma_usage_of(d: OsmDataView, ways: Seq<Id>, n: Id)
    ensures
        usage_of(d, ways, n).len() > 0 <==> listed_in(d, ways, n),
    decreases ways.len(),
{
    if ways.len() > 0 {
        let t = ways.drop_last();
        let w = ways.last();
        lemma_usage_of(d, t, n);
        lemma_occurrences(d.ways[w].nodes, n, w);
        if listed_in(d, t, n) {
            let (a, i) = choose|a: int, i: int|
                0 <= a < t.len() && 0 <= i < d.ways[t[a]].nodes.len() && #[trigger] d.ways[t[a]].nodes[i]
                    == n;
            assert(ways[a] == t[a]);
        }
        if d.ways[w].nodes.contains(n) {
            let i = choose|i: int| 0 <= i < d.ways[w].nodes.len() && d.ways[w].nodes[i] == n;
            assert(ways[ways.len() - 1] == w);
            assert(d.ways[ways[ways.len() - 1]].nodes[i] == n);
        }
        if listed_in(d, ways, n) {
            let (a, i) = choose|a: int, i: int|
                0 <= a < ways.len() && 0 <= i < d.ways[ways[a]].nodes.len() && #[trigger] d.ways[ways[a]].nodes[i]
                    == n;
            if a < t.len() {
                assert(t[a] == ways[a]);
            } else {
                assert(d.ways[w].nodes.contains(n));
            }
        }
    }
}

} // verus!
