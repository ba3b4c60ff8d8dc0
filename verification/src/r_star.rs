//! The spatial index: one tree of node positions and one of way bounding
//! boxes, bulk-loaded from the feature store.

use crate::data::{Coordinate, Id, OsmData, OsmDataView};
use crate::seq_lemmas::{lemma_filter_keeps_distinct, lemma_same_items};
use rstar::primitives::{GeomWithData, Rectangle};
use rstar::{RTree, AABB};
use vstd::prelude::*;

verus! {

/// An axis-aligned box of coordinates; its corners belong to it.
#[derive(Debug, Copy, Clone, PartialEq, Eq, Structural)]
pub struct Aabb {
    pub lower: Coordinate,
    pub upper: Coordinate,
}

impl Aabb {
    /// The lower corner is not above the upper one.
    pub open spec fn proper(self) -> bool {
        self.lower.lat <= self.upper.lat && self.lower.lon <= self.upper.lon
    }

    pub open spec fn contains(self, c: Coordinate) -> bool {
        &&& self.lower.lat <= c.lat <= self.upper.lat
        &&& self.lower.lon <= c.lon <= self.upper.lon
    }

    /// Two boxes intersect when they share a point; touching counts.
    pub open spec fn intersects(self, other: Aabb) -> bool {
        &&& self.lower.lat <= other.upper.lat
        &&& self.lower.lon <= other.upper.lon
        &&& self.upper.lat >= other.lower.lat
        &&& self.upper.lon >= other.lower.lon
    }

    /// The smallest box that holds the two corners.
    pub open spec fn spec_from_corners(a: Coordinate, b: Coordinate) -> Aabb {
        Aabb {
            lower: Coordinate {
                lat: if a.lat <= b.lat { a.lat } else { b.lat },
                lon: if a.lon <= b.lon { a.lon } else { b.lon },
            },
            upper: Coordinate {
                lat: if a.lat <= b.lat { b.lat } else { a.lat },
                lon: if a.lon <= b.lon { b.lon } else { a.lon },
            },
        }
    }

    #[verifier::when_used_as_spec(spec_from_corners)]
    pub fn from_corners(a: Coordinate, b: Coordinate) -> (r: Aabb)
        ensures
            r == Aabb::spec_from_corners(a, b),
            r.proper(),
    {
        Aabb {
            lower: Coordinate {
                lat: if a.lat <= b.lat { a.lat } else { b.lat },
                lon: if a.lon <= b.lon { a.lon } else { b.lon },
            },
            upper: Coordinate {
                lat: if a.lat <= b.lat { b.lat } else { a.lat },
                lon: if a.lon <= b.lon { b.lon } else { a.lon },
            },
        }
    }

    /// The box that holds `c` alone.
    pub open spec fn spec_from_point(c: Coordinate) -> Aabb {
        Aabb { lower: c, upper: c }
    }

    /// The smallest box that holds `self` and `c`.
    pub open spec fn spec_extended(self, c: Coordinate) -> Aabb {
        Aabb {
            lower: Coordinate {
                lat: if c.lat < self.lower.lat { c.lat } else { self.lower.lat },
                lon: if c.lon < self.lower.lon { c.lon } else { self.lower.lon },
            },
            upper: Coordinate {
                lat: if c.lat > self.upper.lat { c.lat } else { self.upper.lat },
                lon: if c.lon > self.upper.lon { c.lon } else { self.upper.lon },
            },
        }
    }

    #[verifier::when_used_as_spec(spec_extended)]
    pub fn extended(self, c: Coordinate) -> (r: Aabb)
        ensures
            r == self.spec_extended(c),
    {
        Aabb {
            lower: Coordinate {
                lat: if c.lat < self.lower.lat { c.lat } else { self.lower.lat },
                lon: if c.lon < self.lower.lon { c.lon } else { self.lower.lon },
            },
            upper: Coordinate {
                lat: if c.lat > self.upper.lat { c.lat } else { self.upper.lat },
                lon: if c.lon > self.upper.lon { c.lon } else { self.upper.lon },
            },
        }
    }
}

/// The bounding box of a non-empty list of points.
pub open spec fn bbox_of(points: Seq<Coordinate>) -> Aabb
    decreases points.len(),
{
    if points.len() <= 1 {
        Aabb::spec_from_point(points[0])
    } else {
        bbox_of(points.drop_last()).spec_extended(points.last())
    }
}

/// The bounding box of a list of points is a proper box that holds each
/// of them.
pub proof fn lemma_bbox_of(points: Seq<Coordinate>)
    requires
        points.len() > 0,
    ensures
        bbox_of(points).proper(),
        forall|i: int| 0 <= i < points.len() ==> bbox_of(points).contains(#[trigger] points[i]),
    decreases points.len(),
{
    if points.len() > 1 {
        let t = points.drop_last();
        lemma_bbox_of(t);
        assert forall|i: int| 0 <= i < points.len() implies bbox_of(points).contains(
            #[trigger] points[i],
        ) by {
            if i < t.len() {
                assert(t[i] == points[i]);
                assert(bbox_of(t).contains(t[i]));
            }
        }
    }
}

/// The positions of the nodes that way `id` lists, in the way's order.
pub open spec fn way_points(d: OsmDataView, id: Id) -> Seq<Coordinate> {
    d.ways[id].nodes.map_values(|n: Id| d.nodes[n].pos)
}

/// What the node tree holds for one node.
#[derive(Debug, Copy, Clone, PartialEq, Eq, Structural)]
pub struct NodeEntry {
    pub id: Id,
    pub pos: Coordinate,
}

/// What the way tree holds for one way.
#[derive(Debug, Copy, Clone, PartialEq, Eq, Structural)]
pub struct WayEntry {
    pub id: Id,
    pub bbox: Aabb,
}

/// An `rstar::RTree` of points, each with the identifier of its node.
#[verifier::external_body]
pub struct RTreeNodes {
    tree: RTree<GeomWithData<[i32; 2], Id>>,
}

/// An `rstar::RTree` of rectangles, each with the identifier of its way.
#[verifier::external_body]
pub struct RTreeWays {
    tree: RTree<GeomWithData<Rectangle<[i32; 2]>, Id>>,
}

/// The entries that a node tree holds, in the order in which the tree's
/// own walk over all of its leaves meets them.
pub uninterp spec fn node_entries(t: RTreeNodes) -> Seq<NodeEntry>;

/// The entries that a way tree holds, in the order in which the tree's own
/// walk over all of its leaves meets them.
pub uninterp spec fn way_entries(t: RTreeWays) -> Seq<WayEntry>;

/// `rstar::RTree::bulk_load` on points: the tree holds the entries handed
/// in, each as often as it was handed in; their order is the tree's own.
#[verifier::external_body]
fn bulk_load_nodes(entries: Vec<NodeEntry>) -> (t: RTreeNodes)
    ensures
        node_entries(t).to_multiset() == entries@.to_multiset(),
{
    RTreeNodes {
        tree: RTree::bulk_load(
            entries.into_iter().map(|e| GeomWithData::new([e.pos.lat, e.pos.lon], e.id)).collect(),
        ),
    }
}

/// `rstar::RTree::bulk_load` on rectangles: the tree holds the entries
/// handed in, each as often as it was handed in; their order is the tree's
/// own.
#[verifier::external_body]
fn bulk_load_ways(entries: Vec<WayEntry>) -> (t: RTreeWays)
    requires
        forall|i: int| 0 <= i < entries@.len() ==> (#[trigger] entries@[i]).bbox.proper(),
    ensures
        way_entries(t).to_multiset() == entries@.to_multiset(),
{
    RTreeWays {
        tree: RTree::bulk_load(
            entries.into_iter().map(
                |e|
                    GeomWithData::new(
                        Rectangle::from_corners(
                            [e.bbox.lower.lat, e.bbox.lower.lon],
                            [e.bbox.upper.lat, e.bbox.upper.lon],
                        ),
                        e.id,
                    ),
            ).collect(),
        ),
    }
}

/// `rstar::RTree::locate_in_envelope_intersecting` on the node tree: the
/// identifiers of the entries whose point lies in `query`, in the order of
/// the tree's walk.
#[verifier::external_body]
fn locate_nodes(t: &RTreeNodes, query: Aabb) -> (ids: Vec<Id>)
    requires
        query.proper(),
    ensures
        ids@ == node_entries(*t).filter(|e: NodeEntry| query.contains(e.pos)).map_values(
            |e: NodeEntry| e.id,
        ),
{
    let envelope = AABB::from_corners(
        [query.lower.lat, query.lower.lon],
        [query.upper.lat, query.upper.lon],
    );
    t.tree.locate_in_envelope_intersecting(envelope).map(|e| e.data).collect()
}

/// `rstar::RTree::locate_in_envelope_intersecting` on the way tree: the
/// identifiers of the entries whose box intersects `query`, in the order of
/// the tree's walk.
#[verifier::external_body]
fn locate_ways(t: &RTreeWays, query: Aabb) -> (ids: Vec<Id>)
    requires
        query.proper(),
    ensures
        ids@ == way_entries(*t).filter(|e: WayEntry| e.bbox.intersects(query)).map_values(
            |e: WayEntry| e.id,
        ),
{
    let envelope = AABB::from_corners(
        [query.lower.lat, query.lower.lon],
        [query.upper.lat, query.upper.lon],
    );
    t.tree.locate_in_envelope_intersecting(envelope).map(|e| e.data).collect()
}

/// The entries that belong in the node tree of a store: one per node.
pub open spec fn node_items(d: OsmDataView, order: Seq<Id>) -> Seq<NodeEntry> {
    order.map_values(|id: Id| NodeEntry { id, pos: d.nodes[id].pos })
}

/// The entries that belong in the way tree of a store: one per way that
/// lists at least one node.
pub open spec fn way_items(d: OsmDataView, order: Seq<Id>) -> Seq<WayEntry> {
    order.filter(|id: Id| d.ways[id].nodes.len() > 0).map_values(
        |id: Id| WayEntry { id, bbox: bbox_of(way_points(d, id)) },
    )
}

/// The two trees of the editor.
pub struct RStarOsmData {
    nodes: RTreeNodes,
    ways: RTreeWays,
}

impl RStarOsmData {
    /// The node entries in the tree's order.
    pub closed spec fn node_seq(&self) -> Seq<NodeEntry> {
        node_entries(self.nodes)
    }

    /// The way entries in the tree's order.
    pub closed spec fn way_seq(&self) -> Seq<WayEntry> {
        way_entries(self.ways)
    }

    /// The index holds exactly the nodes of `d` at their positions, and
    /// exactly the ways of `d` that list a node, each with the bounding box
    /// of its nodes; no identifier occurs twice in either tree.
    pub open spec fn indexes(&self, d: OsmDataView) -> bool {
        &&& self.node_seq().map_values(|e: NodeEntry| e.id).no_duplicates()
        &&& self.way_seq().map_values(|e: WayEntry| e.id).no_duplicates()
        &&& forall|e: NodeEntry| #[trigger]
            self.node_seq().contains(e) <==> d.nodes.contains_key(e.id) && d.nodes[e.id].pos
                == e.pos
        &&& forall|e: WayEntry| #[trigger]
            self.way_seq().contains(e) <==> d.ways.contains_key(e.id) && d.ways[e.id].nodes.len()
                > 0 && e.bbox == bbox_of(way_points(d, e.id))
    }

    /// An index that holds nothing.
    pub fn empty() -> (r: Self)
        ensures
            r.node_seq() == Seq::<NodeEntry>::empty(),
            r.way_seq() == Seq::<WayEntry>::empty(),
    {
        let nodes = bulk_load_nodes(Vec::new());
        let ways = bulk_load_ways(Vec::new());
        let r = RStarOsmData { nodes, ways };
        proof {
            broadcast use vstd::seq_lib::group_to_multiset_ensures;

            r.node_seq().to_multiset_ensures();
            r.way_seq().to_multiset_ensures();
            Seq::<NodeEntry>::empty().to_multiset_ensures();
            Seq::<WayEntry>::empty().to_multiset_ensures();
            assert(r.node_seq().len() == 0);
            assert(r.way_seq().len() == 0);
            assert(r.node_seq() =~= Seq::<NodeEntry>::empty());
            assert(r.way_seq() =~= Seq::<WayEntry>::empty());
        }
        r
    }

    /// Builds both trees from the whole store.
    pub fn from(data: &OsmData) -> (r: Self)
        requires
            data.wf(),
            data.closed(),
        ensures
            r.node_seq().to_multiset() == node_items(data@, data.node_order()).to_multiset(),
            r.way_seq().to_multiset() == way_items(data@, data.way_order()).to_multiset(),
            r.indexes(data@),
    {
        proof {
            data.lemma_wf();
        }
        let ghost d = data@;
        let ghost node_order = data.node_order();
        let ghost way_order = data.way_order();
        let mut node_list: Vec<NodeEntry> = Vec::new();
        let n = data.node_count();
        let mut i: usize = 0;
        while i < n
            invariant
                i <= n,
                n == node_order.len(),
                data.wf(),
                d == data@,
                node_order == data.node_order(),
                forall|k: Id| node_order.contains(k) <==> #[trigger] d.nodes.contains_key(k),
                node_list@ == node_items(d, node_order.take(i as int)),
            decreases n - i,
        {
            let id = data.node_id_at(i);
            assert(node_order.contains(id));
            let node = data.node(id).unwrap();
            node_list.push(NodeEntry { id, pos: node.pos });
            proof {
                assert(node_order.take(i + 1) =~= node_order.take(i as int).push(id));
                assert(node_list@ =~= node_items(d, node_order.take(i + 1)));
            }
            i = i + 1;
        }
        assert(node_order.take(n as int) =~= node_order);

        let mut way_list: Vec<WayEntry> = Vec::new();
        let m = data.way_count();
        let mut j: usize = 0;
        while j < m
            invariant
                j <= m,
                m == way_order.len(),
                data.wf(),
                d == data@,
                way_order == data.way_order(),
                crate::data::store_closed(d),
                forall|k: Id| way_order.contains(k) <==> #[trigger] d.ways.contains_key(k),
                way_list@ == way_items(d, way_order.take(j as int)),
                forall|a: int| 0 <= a < way_list@.len() ==> (#[trigger] way_list@[a]).bbox.proper(),
            decreases m - j,
        {
            let id = data.way_id_at(j);
            assert(way_order.contains(id));
            let way = data.way(id).unwrap();
            let ghost pts = way_points(d, id);
            let ghost before = way_list@;
            let ghost keep = |id: Id| d.ways[id].nodes.len() > 0;
            let ghost make = |id: Id| WayEntry { id, bbox: bbox_of(way_points(d, id)) };
            if way.nodes.len() > 0 {
                let first = data.node(way.nodes[0]).unwrap();
                let mut bbox = Aabb { lower: first.pos, upper: first.pos };
                let mut k: usize = 1;
                assert(pts.take(1) =~= seq![pts[0]]);
                while k < way.nodes.len()
                    invariant
                        1 <= k <= way@.nodes.len(),
                        data.wf(),
                        d == data@,
                        crate::data::store_closed(d),
                        d.ways.contains_key(id),
                        way@ == d.ways[id],
                        pts == way_points(d, id),
                        bbox == bbox_of(pts.take(k as int)),
                    decreases way@.nodes.len() - k,
                {
                    let node = data.node(way.nodes[k]).unwrap();
                    bbox = bbox.extended(node.pos);
                    proof {
                        assert(pts.take(k + 1).drop_last() =~= pts.take(k as int));
                        assert(pts.take(k + 1).last() == pts[k as int]);
                    }
                    k = k + 1;
                }
                proof {
                    assert(pts.take(pts.len() as int) =~= pts);
                    lemma_bbox_of(pts);
                }
                way_list.push(WayEntry { id, bbox });
            }
            proof {
                let prefix = way_order.take(j as int);
                assert(way_order.take(j + 1) =~= prefix.push(id));
                prefix.lemma_filter_push(id, keep);
                if keep(id) {
                    prefix.filter(keep).lemma_push_map_commute(make, id);
                }
                assert(way_list@ =~= way_items(d, way_order.take(j + 1)));
            }
            j = j + 1;
        }
        assert(way_order.take(m as int) =~= way_order);

        let nodes = bulk_load_nodes(node_list);
        let ways = bulk_load_ways(way_list);
        let r = RStarOsmData { nodes, ways };
        proof {
            lemma_items_index(d, node_order, way_order, r.node_seq(), r.way_seq());
        }
        r
    }

    /// The identifiers of the nodes whose position lies in the box spanned
    /// by `a` and `b`, and of the ways whose bounding box intersects it, both
    /// in the order of the tree's walk.
    pub fn query_envelope(&self, a: Coordinate, b: Coordinate) -> (r: (Vec<Id>, Vec<Id>))
        ensures
            r.0@ == nodes_located(self.node_seq(), Aabb::spec_from_corners(a, b)),
            r.1@ == ways_located(self.way_seq(), Aabb::spec_from_corners(a, b)),
    {
        let query = Aabb::from_corners(a, b);
        (locate_nodes(&self.nodes, query), locate_ways(&self.ways, query))
    }
}

/// The identifiers of the node entries that lie in `query`.
pub open spec fn nodes_located(entries: Seq<NodeEntry>, query: Aabb) -> Seq<Id> {
    entries.filter(|e: NodeEntry| query.contains(e.pos)).map_values(|e: NodeEntry| e.id)
}

/// The identifiers of the way entries whose box intersects `query`.
pub open spec fn ways_located(entries: Seq<WayEntry>, query: Aabb) -> Seq<Id> {
    entries.filter(|e: WayEntry| e.bbox.intersects(query)).map_values(|e: WayEntry| e.id)
}

proof fn lemma_items_index(
    d: OsmDataView,
    node_order: Seq<Id>,
    way_order: Seq<Id>,
    ns: Seq<NodeEntry>,
    ws: Seq<WayEntry>,
)
    requires
        node_order.no_duplicates(),
        way_order.no_duplicates(),
        forall|k: Id| node_order.contains(k) <==> #[trigger] d.nodes.contains_key(k),
        forall|k: Id| way_order.contains(k) <==> #[trigger] d.ways.contains_key(k),
        ns.to_multiset() == node_items(d, node_order).to_multiset(),
        ws.to_multiset() == way_items(d, way_order).to_multiset(),
    ensures
        ns.map_values(|e: NodeEntry| e.id).no_duplicates(),
        ws.map_values(|e: WayEntry| e.id).no_duplicates(),
        forall|e: NodeEntry| #[trigger]
            ns.contains(e) <==> d.nodes.contains_key(e.id) && d.nodes[e.id].pos == e.pos,
        forall|e: WayEntry| #[trigger]
            ws.contains(e) <==> d.ways.contains_key(e.id) && d.ways[e.id].nodes.len() > 0
                && e.bbox == bbox_of(way_points(d, e.id)),
{
    let ni = node_items(d, node_order);
    let nkey = |e: NodeEntry| e.id;
    assert(ni.map_values(nkey) =~= node_order);
    lemma_same_items(ns, ni, nkey);
    assert forall|e: NodeEntry| #[trigger]
        ns.contains(e) <==> d.nodes.contains_key(e.id) && d.nodes[e.id].pos == e.pos by {
        if ni.contains(e) {
            let i = choose|i: int| 0 <= i < ni.len() && ni[i] == e;
            assert(node_order.contains(node_order[i]));
        }
        if d.nodes.contains_key(e.id) && d.nodes[e.id].pos == e.pos {
            assert(node_order.contains(e.id));
            let i = choose|i: int| 0 <= i < node_order.len() && node_order[i] == e.id;
            assert(ni[i] == e);
        }
    }
    let keep = |id: Id| d.ways[id].nodes.len() > 0;
    let wkey = |e: WayEntry| e.id;
    let ident = |id: Id| id;
    let kept = way_order.filter(keep);
    let wi = way_items(d, way_order);
    assert(way_order.map_values(ident) =~= way_order);
    lemma_filter_keeps_distinct(way_order, keep, ident);
    assert(kept.map_values(ident) =~= kept);
    assert(wi.map_values(wkey) =~= kept);
    lemma_same_items(ws, wi, wkey);
    assert forall|e: WayEntry| #[trigger]
        ws.contains(e) <==> d.ways.contains_key(e.id) && d.ways[e.id].nodes.len() > 0 && e.bbox
            == bbox_of(way_points(d, e.id)) by {
        if wi.contains(e) {
            let i = choose|i: int| 0 <= i < wi.len() && wi[i] == e;
            assert(kept.contains(kept[i]));
            assert(way_order.contains(kept[i]));
        }
        if d.ways.contains_key(e.id) && d.ways[e.id].nodes.len() > 0 && e.bbox == bbox_of(
            way_points(d, e.id),
        ) {
            assert(way_order.contains(e.id));
            assert(kept.contains(e.id));
            let i = choose|i: int| 0 <= i < kept.len() && kept[i] == e.id;
            assert(wi[i] == e);
        }
    }
}

} // verus!
