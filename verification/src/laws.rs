//! Laws of the cache bank: what holds of every store, every list of
//! features in view and every sequence of operations.

use crate::area_order::{
    halved, largest_first, lemma_halved_order, lemma_order_by_area, lemma_order_keeps_keys,
    order_by_area, size_of, AreaEntry,
};
use crate::cache::{known_nodes, known_ways, log_with, ChangeView, EditorOsmData};
use crate::data::{merge_store, Coordinate, Id, NodeView, OsmDataView, WayView};
use crate::geometry::{lemma_area_bound, magnitude, Pos2};
use crate::mesh::indices_in_range;
use crate::model::{
    area_ways, cell, claimed_before, endpoints, first_claims, is_parented, lemma_first_claims,
    line_ways, listed_in, lists_at, occurrences, orphans_of, usage_of, way_endpoints,
    way_is_area,
};
use crate::r_star::{
    bbox_of, lemma_bbox_of, nodes_located, way_points, ways_located, Aabb, NodeEntry,
    RStarOsmData, WayEntry,
};
use crate::refresh::{area_sizes, doubled_sizes, points_of, way_mesh_of};
use crate::seq_lemmas::{lemma_filter_agree, lemma_filter_keeps_distinct};
use crate::states::CacheFlag;
use vstd::prelude::*;

verus! {

// ---------------------------------------------------------------------
// Taking in features
// ---------------------------------------------------------------------
/// The store without features.
pub open spec fn empty_store() -> OsmDataView {
    OsmDataView { nodes: Map::empty(), ways: Map::empty() }
}

/// The store after the batches of `batches` are taken in one after the
/// other.
pub open spec fn merge_all(store: OsmDataView, batches: Seq<OsmDataView>) -> OsmDataView
    decreases batches.len(),
{
    if batches.len() == 0 {
        store
    } else {
        merge_store(merge_all(store, batches.drop_last()), batches.last())
    }
}

/// Two stores hold the same features.
pub open spec fn same_store(a: OsmDataView, b: OsmDataView) -> bool {
    a.nodes =~= b.nodes && a.ways =~= b.ways
}

/// Taking in `a` and then `b` is taking in the two merged, `a` first.
pub proof fn lemma_merge_associative(store: OsmDataView, a: OsmDataView, b: OsmDataView)
    ensures
        merge_store(merge_store(store, a), b) == merge_store(store, merge_store(a, b)),
{
    let l = merge_store(merge_store(store, a), b);
    let r = merge_store(store, merge_store(a, b));
    assert(l.nodes =~= r.nodes);
    assert(l.ways =~= r.ways);
}

/// Taking in nothing changes nothing.
pub proof fn lemma_merge_empty(store: OsmDataView)
    ensures
        merge_store(store, empty_store()) == store,
        merge_store(empty_store(), store) == store,
{
    assert(merge_store(store, empty_store()).nodes =~= store.nodes);
    assert(merge_store(store, empty_store()).ways =~= store.ways);
    assert(merge_store(empty_store(), store).nodes =~= store.nodes);
    assert(merge_store(empty_store(), store).ways =~= store.ways);
}

/// The store after a sequence of batches is taken in is the store after one
/// batch is taken in: the batches merged among themselves, the first to
/// bring an identifier winning.
pub proof fn lemma_merge_all_is_one_merge(store: OsmDataView, batches: Seq<OsmDataView>)
    ensures
        merge_all(store, batches) == merge_store(store, merge_all(empty_store(), batches)),
    decreases batches.len(),
{
    if batches.len() == 0 {
        lemma_merge_empty(store);
    } else {
        let t = batches.drop_last();
        lemma_merge_all_is_one_merge(store, t);
        lemma_merge_associative(store, merge_all(empty_store(), t), batches.last());
    }
}

/// Two batches that share no identifier can be taken in in either order.
pub proof fn lemma_merge_order_free(store: OsmDataView, a: OsmDataView, b: OsmDataView)
    requires
        a.nodes.dom().disjoint(b.nodes.dom()),
        a.ways.dom().disjoint(b.ways.dom()),
    ensures
        merge_store(merge_store(store, a), b) == merge_store(merge_store(store, b), a),
{
    let l = merge_store(merge_store(store, a), b);
    let r = merge_store(merge_store(store, b), a);
    assert(l.nodes =~= r.nodes);
    assert(l.ways =~= r.ways);
}

/// A feature that the store has stays as it is, whatever is taken in.
pub proof fn lemma_first_wins(store: OsmDataView, batch: OsmDataView, id: Id)
    ensures
        store.nodes.contains_key(id) ==> merge_store(store, batch).nodes[id] == store.nodes[id],
        store.ways.contains_key(id) ==> merge_store(store, batch).ways[id] == store.ways[id],
        !store.nodes.contains_key(id) && batch.nodes.contains_key(id) ==> merge_store(
            store,
            batch,
        ).nodes[id] == batch.nodes[id],
        !store.ways.contains_key(id) && batch.ways.contains_key(id) ==> merge_store(
            store,
            batch,
        ).ways[id] == batch.ways[id],
        merge_store(store, batch).nodes.contains_key(id) <==> store.nodes.contains_key(id)
            || batch.nodes.contains_key(id),
        merge_store(store, batch).ways.contains_key(id) <==> store.ways.contains_key(id)
            || batch.ways.contains_key(id),
{
}

// ---------------------------------------------------------------------
// View membership
// ---------------------------------------------------------------------
/// Where the index belongs to the store, the nodes in view are exactly the
/// nodes of the store whose position lies in the box, and the ways in view
/// are exactly the ways of the store that list a node and whose bounding
/// box intersects the box; no identifier is in either list twice. A way
/// that lists a node in the box is in view.
pub proof fn lemma_view_membership(index: RStarOsmData, d: OsmDataView, query: Aabb)
    requires
        index.indexes(d),
    ensures
        nodes_located(index.node_seq(), query).no_duplicates(),
        ways_located(index.way_seq(), query).no_duplicates(),
        forall|id: Id|
            nodes_located(index.node_seq(), query).contains(id) <==> d.nodes.contains_key(id)
                && query.contains(d.nodes[id].pos),
        forall|id: Id|
            ways_located(index.way_seq(), query).contains(id) <==> d.ways.contains_key(id)
                && d.ways[id].nodes.len() > 0 && bbox_of(way_points(d, id)).intersects(query),
        forall|id: Id, i: int|
            d.ways.contains_key(id) && 0 <= i < d.ways[id].nodes.len() && query.contains(
                #[trigger] way_points(d, id)[i],
            ) ==> ways_located(index.way_seq(), query).contains(id),
{
    let ns = index.node_seq();
    let ws = index.way_seq();
    let np = |e: NodeEntry| query.contains(e.pos);
    let wp = |e: WayEntry| e.bbox.intersects(query);
    let nk = |e: NodeEntry| e.id;
    let wk = |e: WayEntry| e.id;
    lemma_filter_keeps_distinct(ns, np, nk);
    lemma_filter_keeps_distinct(ws, wp, wk);
    let nf = ns.filter(np);
    let wf = ws.filter(wp);
    let nodes = nodes_located(ns, query);
    let ways = ways_located(ws, query);
    assert forall|id: Id|
        nodes.contains(id) <==> d.nodes.contains_key(id) && query.contains(d.nodes[id].pos) by {
        if nodes.contains(id) {
            let i = choose|i: int| 0 <= i < nodes.len() && nodes[i] == id;
            assert(nf.contains(nf[i]));
            assert(ns.contains(nf[i]));
        }
        if d.nodes.contains_key(id) && query.contains(d.nodes[id].pos) {
            let e = NodeEntry { id, pos: d.nodes[id].pos };
            assert(ns.contains(e));
            assert(nf.contains(e));
            let i = choose|i: int| 0 <= i < nf.len() && nf[i] == e;
            assert(nodes[i] == id);
        }
    }
    assert forall|id: Id|
        ways.contains(id) <==> d.ways.contains_key(id) && d.ways[id].nodes.len() > 0 && bbox_of(
            way_points(d, id),
        ).intersects(query) by {
        if ways.contains(id) {
            let i = choose|i: int| 0 <= i < ways.len() && ways[i] == id;
            assert(wf.contains(wf[i]));
            assert(ws.contains(wf[i]));
        }
        if d.ways.contains_key(id) && d.ways[id].nodes.len() > 0 && bbox_of(
            way_points(d, id),
        ).intersects(query) {
            let e = WayEntry { id, bbox: bbox_of(way_points(d, id)) };
            assert(ws.contains(e));
            assert(wf.contains(e));
            let i = choose|i: int| 0 <= i < wf.len() && wf[i] == e;
            assert(ways[i] == id);
        }
    }
    assert forall|id: Id, i: int|
        d.ways.contains_key(id) && 0 <= i < d.ways[id].nodes.len() && query.contains(
            #[trigger] way_points(d, id)[i],
        ) implies ways.contains(id) by {
        let pts = way_points(d, id);
        lemma_bbox_of(pts);
        assert(bbox_of(pts).contains(pts[i]));
    }
}

// ---------------------------------------------------------------------
// Deduplication
// ---------------------------------------------------------------------
/// Where the dedup cache is fresh, no two of the nodes to draw stand at one
/// position, whether end nodes of ways or orphans; each of them is a
/// candidate, and every candidate stands where one of them stands.
pub proof fn lemma_dedup_invariant(osm: EditorOsmData)
    requires
        osm.dedup_fresh(),
    ensures
        forall|a: int, b: int|
            0 <= a < b < osm.drawn_nodes().len() ==> cell(osm.data@, #[trigger] osm.drawn_nodes()[a])
                != cell(osm.data@, #[trigger] osm.drawn_nodes()[b]),
        osm.drawn_nodes().no_duplicates(),
        forall|x: Id| #[trigger]
            osm.drawn_nodes().contains(x) ==> osm.dedup_candidates().contains(x),
        forall|i: int|
            0 <= i < osm.dedup_candidates().len() ==> exists|a: int|
                0 <= a < osm.drawn_nodes().len() && cell(osm.data@, #[trigger] osm.drawn_nodes()[a])
                    == cell(osm.data@, #[trigger] osm.dedup_candidates()[i]),
        osm.node_dedup.way_nodes@ == first_claims(
            osm.data@,
            way_endpoints(osm.data@, osm.way_area.ways@),
        ),
{
    lemma_first_claims(osm.data@, osm.dedup_candidates());
}

// ---------------------------------------------------------------------
// Paint order
// ---------------------------------------------------------------------
/// Where the paint order is fresh, it holds each area once with its signed
/// area in square pixels, and of two areas the one with the larger area
/// comes first: by the areas that it holds, and by the areas themselves,
/// which may differ by half a square pixel where the held ones do not.
pub proof fn lemma_paint_order(osm: EditorOsmData)
    requires
        osm.wf(),
        osm.paint_order_fresh(),
        osm.way_area.areas@.no_duplicates(),
    ensures
        largest_first(osm.paint_order()),
        osm.paint_order().len() == osm.way_area.areas@.len(),
        osm.paint_order().map_values(|e: AreaEntry| e.0).no_duplicates(),
        forall|e: AreaEntry|
            osm.paint_order().contains(e) <==> area_sizes(
                osm.data@,
                osm.projected(),
                osm.way_area.areas@,
            ).contains(e),
        forall|i: int, j: int|
            0 <= i < osm.paint_order().len() && 0 <= j < osm.paint_order().len() && size_of(
                #[trigger] osm.paint_order()[i],
            ) > size_of(#[trigger] osm.paint_order()[j]) ==> i < j,
        forall|i: int, j: int|
            0 <= i < osm.paint_order().len() && 0 <= j < osm.paint_order().len() && magnitude(
                osm.doubled_area_of(#[trigger] osm.paint_order()[i].0),
            ) > magnitude(osm.doubled_area_of(#[trigger] osm.paint_order()[j].0)) ==> i < j,
{
    let areas = osm.way_area.areas@;
    let sizes = doubled_sizes(osm.data@, osm.projected(), areas);
    let halves = area_sizes(osm.data@, osm.projected(), areas);
    let sorted = order_by_area(sizes);
    let order = osm.paint_order();
    assert(sizes.map_values(|e: AreaEntry| e.0) =~= areas);
    lemma_order_by_area(sizes);
    lemma_order_keeps_keys(sizes);
    lemma_halved_order(sorted);
    assert(order.map_values(|e: AreaEntry| e.0) =~= sorted.map_values(|e: AreaEntry| e.0));
    osm.data.lemma_way_lengths();
    assert forall|k: int| 0 <= k < areas.len() implies halved(#[trigger] sizes[k]) == halves[k]
        && sizes[k].1 == osm.doubled_area_of(areas[k]) by {
        assert(osm.data@.ways.contains_key(areas[k]));
        lemma_area_bound(points_of(osm.projected(), osm.data@.ways[areas[k]].nodes));
    }
    assert forall|e: AreaEntry| order.contains(e) <==> halves.contains(e) by {
        if order.contains(e) {
            let i = choose|i: int| 0 <= i < order.len() && order[i] == e;
            assert(order[i] == halved(sorted[i]));
            assert(sorted.contains(sorted[i]));
            assert(sizes.contains(sorted[i]));
            let k = choose|k: int| 0 <= k < sizes.len() && sizes[k] == sorted[i];
            assert(halved(sizes[k]) == halves[k]);
            assert(halves[k] == e);
        }
        if halves.contains(e) {
            let k = choose|k: int| 0 <= k < halves.len() && halves[k] == e;
            assert(sizes.contains(sizes[k]));
            assert(sorted.contains(sizes[k]));
            let i = choose|i: int| 0 <= i < sorted.len() && sorted[i] == sizes[k];
            assert(order[i] == halved(sorted[i]));
            assert(halved(sizes[k]) == halves[k]);
            assert(order[i] == e);
        }
    }
    assert forall|i: int, j: int|
        0 <= i < order.len() && 0 <= j < order.len() && size_of(#[trigger] order[i]) > size_of(
            #[trigger] order[j],
        ) implies i < j by {
        if j < i {
            assert(size_of(order[j]) >= size_of(order[i]));
        }
    }
    assert forall|i: int, j: int|
        0 <= i < order.len() && 0 <= j < order.len() && magnitude(
            osm.doubled_area_of(#[trigger] order[i].0),
        ) > magnitude(osm.doubled_area_of(#[trigger] order[j].0)) implies i < j by {
        assert(sorted.contains(sorted[i]));
        assert(sizes.contains(sorted[i]));
        let k = choose|k: int| 0 <= k < sizes.len() && sizes[k] == sorted[i];
        assert(sorted.contains(sorted[j]));
        assert(sizes.contains(sorted[j]));
        let m = choose|m: int| 0 <= m < sizes.len() && sizes[m] == sorted[j];
        assert(order[i] == halved(sorted[i]) && order[j] == halved(sorted[j]));
        assert(order[i].0 == areas[k] && order[j].0 == areas[m]);
        assert(sizes[k].1 == osm.doubled_area_of(areas[k]));
        assert(sizes[m].1 == osm.doubled_area_of(areas[m]));
        if j < i {
            assert(size_of(sorted[j]) >= size_of(sorted[i]));
        }
    }
}

// ---------------------------------------------------------------------
// Meshes
// ---------------------------------------------------------------------
/// Where the mesh cache is fresh, every index of every mesh in it names a
/// vertex of that mesh.
pub proof fn lemma_mesh_indices(osm: EditorOsmData, a: Id)
    requires
        osm.meshes_fresh(),
        osm.meshes().contains_key(a),
    ensures
        indices_in_range(osm.meshes()[a]),
{
}

// ---------------------------------------------------------------------
// The log of edits
// ---------------------------------------------------------------------
/// Two edits to one way, one right after the other, leave one entry in the
/// log, and it is the second edit.
pub proof fn lemma_edits_coalesce(log: Seq<ChangeView>, first: ChangeView, second: ChangeView)
    requires
        first.target() == second.target(),
    ensures
        log_with(log_with(log, first), second).len() == log_with(log, first).len(),
        log_with(log_with(log, first), second) == log_with(log, first).drop_last().push(second),
        log_with(log_with(log, first), second) == log_with(log, second),
        log_with(log_with(Seq::empty(), first), second) == seq![second],
{
    let once = log_with(log, first);
    assert(once.len() > 0 && once.last() == first);
    assert(log_with(once, second) =~= once.drop_last().push(second));
    assert(once.drop_last().push(second) =~= log_with(log, second)) by {
        if log.len() > 0 && log.last().target() == first.target() {
            assert(once.drop_last() =~= log.drop_last());
        } else {
            assert(once.drop_last() =~= log);
        }
    }
    let empty = Seq::<ChangeView>::empty();
    assert(log_with(empty, first) =~= seq![first]);
    assert(log_with(seq![first], second) =~= seq![second]);
}

/// An edit to another way than the last entry is about makes the log one
/// entry longer.
pub proof fn lemma_edits_append(log: Seq<ChangeView>, change: ChangeView)
    requires
        log.len() == 0 || log.last().target() != change.target(),
    ensures
        log_with(log, change) == log.push(change),
{
}

// ---------------------------------------------------------------------
// Refreshing twice
// ---------------------------------------------------------------------
/// `project` gives one position for each coordinate.
pub open spec fn single_valued<F: Fn(Coordinate) -> Pos2>(project: &F) -> bool {
    forall|c: Coordinate, p: Pos2, q: Pos2|
        project.ensures((c,), p) && project.ensures((c,), q) ==> p == q
}

/// A cache that is fresh in two banks that agree on what the cache is
/// made from holds the same in both. So a second refresh right after the
/// first leaves every cache as the first left it.
pub proof fn lemma_refresh_is_repeatable<F: Fn(Coordinate) -> Pos2>(
    a: EditorOsmData,
    b: EditorOsmData,
    project: &F,
)
    requires
        a.data@ == b.data@,
        a.nodes_in_view@ == b.nodes_in_view@,
        a.ways_in_view@ == b.ways_in_view@,
    ensures
        a.orphans_fresh() && b.orphans_fresh() ==> a.orphan_nodes@ == b.orphan_nodes@,
        a.way_area_fresh() && b.way_area_fresh() ==> a.way_area.ways@ == b.way_area.ways@
            && a.way_area.areas@ == b.way_area.areas@,
        a.dedup_fresh() && b.dedup_fresh() && a.orphan_nodes@ == b.orphan_nodes@
            && a.way_area.ways@ == b.way_area.ways@ ==> a.node_dedup.way_nodes@
            == b.node_dedup.way_nodes@ && a.node_dedup.orphan_nodes@
            == b.node_dedup.orphan_nodes@,
        a.usage_fresh() && b.usage_fresh() ==> a.node_usage@.dom() == b.node_usage@.dom()
            && forall|n: Id| #[trigger]
            a.node_usage@.contains_key(n) ==> a.node_usage@[n]@ == b.node_usage@[n]@,
        a.projection_covers() && b.projection_covers() && a.projected_by(project)
            && b.projected_by(project) && single_valued(project) && a.node_dedup.orphan_nodes@
            == b.node_dedup.orphan_nodes@ ==> a.projected() == b.projected(),
        a.meshes_fresh() && b.meshes_fresh() && a.way_area.areas@ == b.way_area.areas@
            && a.projected() == b.projected() ==> a.meshes() == b.meshes(),
        a.paint_order_fresh() && b.paint_order_fresh() && a.way_area.areas@ == b.way_area.areas@
            && a.projected() == b.projected() ==> a.paint_order() == b.paint_order(),
{
    if a.usage_fresh() && b.usage_fresh() {
        assert(a.node_usage@.dom() =~= b.node_usage@.dom());
    }
    if a.dedup_fresh() && b.dedup_fresh() && a.orphan_nodes@ == b.orphan_nodes@
        && a.way_area.ways@ == b.way_area.ways@ {
        crate::seq_lemmas::lemma_same_tail(
            a.node_dedup.way_nodes@,
            a.node_dedup.orphan_nodes@,
            b.node_dedup.orphan_nodes@,
        );
    }
    if a.projection_covers() && b.projection_covers() && a.projected_by(project) && b.projected_by(
        project,
    ) && single_valued(project) && a.node_dedup.orphan_nodes@ == b.node_dedup.orphan_nodes@ {
        assert forall|n: Id| a.projected().contains_key(n) implies #[trigger] a.projected()[n]
            == b.projected()[n] by {
            assert(b.projected().contains_key(n));
        }
        assert(a.projected() =~= b.projected());
    }
    if a.meshes_fresh() && b.meshes_fresh() && a.way_area.areas@ == b.way_area.areas@
        && a.projected() == b.projected() {
        assert forall|w: Id| a.meshes().contains_key(w) implies #[trigger] a.meshes()[w]
            == b.meshes()[w] by {
            assert(b.meshes().contains_key(w));
        }
        assert(a.meshes() =~= b.meshes());
    }
}

// ---------------------------------------------------------------------
// Edits that change tags alone
// ---------------------------------------------------------------------
/// Two stores have the same nodes and the same ways but for tags, and each
/// way is an area in both or in neither.
pub open spec fn same_shape(a: OsmDataView, b: OsmDataView) -> bool {
    &&& a.nodes == b.nodes
    &&& a.ways.dom() == b.ways.dom()
    &&& forall|w: Id| #[trigger]
        a.ways.contains_key(w) ==> a.ways[w].nodes == b.ways[w].nodes && way_is_area(a.ways[w])
            == way_is_area(b.ways[w])
}

proof fn lemma_shape_parented(a: OsmDataView, b: OsmDataView, n: Id)
    requires
        same_shape(a, b),
    ensures
        is_parented(a, n) == is_parented(b, n),
{
    if is_parented(a, n) {
        let (w, i) = choose|w: Id, i: int| #[trigger] lists_at(a, w, i, n);
        assert(b.ways.dom().contains(w));
        assert(lists_at(b, w, i, n));
    }
    if is_parented(b, n) {
        let (w, i) = choose|w: Id, i: int| #[trigger] lists_at(b, w, i, n);
        assert(a.ways.dom().contains(w));
        assert(a.ways.contains_key(w));
        assert(lists_at(a, w, i, n));
    }
}

proof fn lemma_shape_endpoints(a: OsmDataView, b: OsmDataView, ways: Seq<Id>)
    requires
        same_shape(a, b),
        known_ways(a, ways),
    ensures
        way_endpoints(a, ways) == way_endpoints(b, ways),
    decreases ways.len(),
{
    if ways.len() > 0 {
        let t = ways.drop_last();
        assert forall|i: int| 0 <= i < t.len() implies a.ways.contains_key(#[trigger] t[i]) by {
            assert(t[i] == ways[i]);
        }
        lemma_shape_endpoints(a, b, t);
        assert(a.ways.contains_key(ways[ways.len() - 1]));
    }
}

proof fn lemma_shape_claims(a: OsmDataView, b: OsmDataView, cands: Seq<Id>)
    requires
        a.nodes == b.nodes,
    ensures
        first_claims(a, cands) == first_claims(b, cands),
    decreases cands.len(),
{
    if cands.len() > 0 {
        lemma_shape_claims(a, b, cands.drop_last());
        let n = cands.len() - 1;
        if claimed_before(a, cands, n) {
            let j = choose|j: int| 0 <= j < n && #[trigger] cell(a, cands[j]) == cell(a, cands[n]);
            assert(cell(b, cands[j]) == cell(b, cands[n]));
        }
        if claimed_before(b, cands, n) {
            let j = choose|j: int| 0 <= j < n && #[trigger] cell(b, cands[j]) == cell(b, cands[n]);
            assert(cell(a, cands[j]) == cell(a, cands[n]));
        }
    }
}

proof fn lemma_shape_usage(a: OsmDataView, b: OsmDataView, ways: Seq<Id>, n: Id)
    requires
        same_shape(a, b),
        known_ways(a, ways),
    ensures
        usage_of(a, ways, n) == usage_of(b, ways, n),
        listed_in(a, ways, n) == listed_in(b, ways, n),
    decreases ways.len(),
{
    if ways.len() > 0 {
        let t = ways.drop_last();
        assert forall|i: int| 0 <= i < t.len() implies a.ways.contains_key(#[trigger] t[i]) by {
            assert(t[i] == ways[i]);
        }
        lemma_shape_usage(a, b, t, n);
        assert(a.ways.contains_key(ways[ways.len() - 1]));
    }
    if listed_in(a, ways, n) {
        let (x, i) = choose|x: int, i: int|
            0 <= x < ways.len() && 0 <= i < a.ways[ways[x]].nodes.len() && #[trigger] a.ways[ways[x]].nodes[i]
                == n;
        assert(a.ways.contains_key(ways[x]));
        assert(b.ways[ways[x]].nodes[i] == n);
    }
    if listed_in(b, ways, n) {
        let (x, i) = choose|x: int, i: int|
            0 <= x < ways.len() && 0 <= i < b.ways[ways[x]].nodes.len() && #[trigger] b.ways[ways[x]].nodes[i]
                == n;
        assert(a.ways.contains_key(ways[x]));
        assert(a.ways[ways[x]].nodes[i] == n);
    }
}

/// A cache that is fresh stays fresh where the store changes in tags
/// alone and no way changes between line and area.
pub proof fn lemma_tag_edit_keeps_fresh(before: EditorOsmData, after: EditorOsmData, f: CacheFlag)
    requires
        before.wf(),
        same_shape(before.data@, after.data@),
        after.same_caches(&before),
        before.fresh(f),
    ensures
        after.fresh(f),
{
    let a = before.data@;
    let b = after.data@;
    let nodes = before.nodes_in_view@;
    let ways = before.ways_in_view@;
    let areas = before.way_area.areas@;
    match f {
        CacheFlag::NodeOrphan => {
            assert forall|i: int| 0 <= i < nodes.len() implies !is_parented(a, #[trigger] nodes[i])
                == !is_parented(b, nodes[i]) by {
                lemma_shape_parented(a, b, nodes[i]);
            }
            lemma_filter_agree(nodes, |n: Id| !is_parented(a, n), |n: Id| !is_parented(b, n));
        },
        CacheFlag::WayArea => {
            assert forall|i: int| 0 <= i < ways.len() implies way_is_area(
                a.ways[#[trigger] ways[i]],
            ) == way_is_area(b.ways[ways[i]]) by {
                assert(a.ways.contains_key(ways[i]));
            }
            lemma_filter_agree(
                ways,
                |w: Id| !way_is_area(a.ways[w]),
                |w: Id| !way_is_area(b.ways[w]),
            );
            lemma_filter_agree(ways, |w: Id| way_is_area(a.ways[w]), |w: Id| way_is_area(b.ways[w]));
        },
        CacheFlag::NodeDedup => {
            lemma_shape_endpoints(a, b, before.way_area.ways@);
            lemma_shape_claims(a, b, way_endpoints(a, before.way_area.ways@));
            lemma_shape_claims(a, b, before.dedup_candidates());
        },
        CacheFlag::NodeUsage => {
            assert forall|n: Id|
                after.node_usage@.contains_key(n) <==> listed_in(b, after.ways_in_view@, n) by {
                lemma_shape_usage(a, b, ways, n);
                assert(before.node_usage@.contains_key(n) <==> listed_in(a, ways, n));
            }
            assert forall|n: Id| #[trigger] after.node_usage@.contains_key(n) implies after.node_usage@[n]@
                == usage_of(b, after.ways_in_view@, n) by {
                lemma_shape_usage(a, b, ways, n);
                assert(before.node_usage@.contains_key(n));
            }
        },
        CacheFlag::NodeProjection => {
            assert forall|n: Id|
                #![trigger after.projected().contains_key(n)]
                after.projected().contains_key(n) <==> listed_in(b, after.ways_in_view@, n)
                    || after.node_dedup.orphan_nodes@.contains(n) by {
                lemma_shape_usage(a, b, ways, n);
                assert(before.projected().contains_key(n) <==> listed_in(a, ways, n)
                    || before.node_dedup.orphan_nodes@.contains(n));
            }
        },
        CacheFlag::WayMeshAndAreaSize => {
            assert forall|w: Id|
                after.meshes().contains_key(w) <==> after.way_area.areas@.contains(w)
                    && way_mesh_of(b, after.projected(), w).is_some() by {
                assert(before.meshes().contains_key(w) <==> areas.contains(w) && way_mesh_of(
                    a,
                    before.projected(),
                    w,
                ).is_some());
                if areas.contains(w) {
                    let i = choose|i: int| 0 <= i < areas.len() && areas[i] == w;
                    assert(a.ways.contains_key(areas[i]));
                }
            }
            assert forall|w: Id| #[trigger] after.meshes().contains_key(w) implies Some(
                after.meshes()[w],
            ) == way_mesh_of(b, after.projected(), w) by {
                assert(before.meshes().contains_key(w));
                assert(areas.contains(w));
                let i = choose|i: int| 0 <= i < areas.len() && areas[i] == w;
                assert(a.ways.contains_key(areas[i]));
            }
        },
        CacheFlag::AreaSizeOrdered => {
            assert(doubled_sizes(a, before.projected(), areas) =~= doubled_sizes(
                b,
                after.projected(),
                areas,
            )) by {
                assert forall|i: int| 0 <= i < areas.len() implies a.ways[#[trigger] areas[i]].nodes
                    == b.ways[areas[i]].nodes by {
                    assert(a.ways.contains_key(areas[i]));
                }
            }
        },
    }
}

/// Flags that tell the truth still do after an edit that changes the tags
/// of a way of the store alone and leaves it a line or an area, as it was.
pub proof fn lemma_tag_edit_keeps_sound(before: EditorOsmData, after: EditorOsmData)
    requires
        before.wf(),
        same_shape(before.data@, after.data@),
        after.same_caches(&before),
        before.sound(),
    ensures
        after.sound(),
{
    if !before.refresh_in_view_flag {
        assert forall|f: CacheFlag| !after.cache_flags.has(f) implies #[trigger] after.fresh(f) by {
            assert(before.fresh(f));
            lemma_tag_edit_keeps_fresh(before, after, f);
        }
    }
}

} // verus!
