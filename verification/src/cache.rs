//! The cache bank: the feature store, the spatial index, the lists of
//! features in view, the log of edits, and the seven derived caches.

use crate::area_order::{
    area_entries, area_map_clear, area_map_get, area_map_insert, area_map_keys, area_map_len,
    area_map_new, entry_index, halved, lemma_entry_index, lemma_entry_index_absent,
    lemma_halved_order, lemma_order_by_area, lemma_order_keeps_keys, order_by_area, AreaEntry,
    AreaSizeOrderedCache,
};
use crate::text::{decimal_text, push_decimal};
use crate::data::{
    merge_store, store_closed, ways_closed, Coordinate, Id, Node, OsmData, OsmDataView, Way,
    WayView,
};
use crate::geometry::{doubled_area, lemma_area_bound, signed_area, Pos2, Vec2};
use crate::mesh::{indices_in_range, MeshData, MeshView};
use crate::model::{
    area_ways, cell, first_claims, lemma_first_claims, line_ways, listed_in, orphans_of, usage_of,
    way_endpoints,
};
use crate::r_star::{nodes_located, ways_located, Aabb, NodeEntry, RStarOsmData, WayEntry};
use crate::refresh::{
    all_projected, classify_ways, collect_endpoints, collect_points, compute_meshes,
    compute_orphans, compute_paint_order, compute_usage, dedup_two, doubled_sizes,
    is_all_projected, lemma_filter_ids, paint_order_of, points_of, project_nodes, way_mesh_of,
    ways_projected,
};
use crate::seq_lemmas::lemma_filter_keeps_distinct;
use crate::states::{CacheBitflag, CacheFlag};
use crate::tags::Tags;
use std::collections::HashMap;
use vstd::prelude::*;
use vstd::string::StringExecFns;

verus! {

broadcast use vstd::std_specs::hash::group_hash_axioms;

/// How far the view may drift, in pixels, before the lists of features in
/// view are made anew.
pub const MAX_VIEW_OFFSET: i32 = 100;

/// For each cache and for the lists of features in view: how long the
/// last refresh took, in microseconds, and how often it was refreshed.
pub struct CacheDebug(pub [(u32, u32); 8]);

impl CacheDebug {
    /// All times and counts at zero.
    pub fn new() -> (r: Self)
        ensures
            forall|i: int| 0 <= i < 8 ==> #[trigger] r.0@[i] == (0u32, 0u32),
    {
        CacheDebug([(0u32, 0u32); 8])
    }

    /// Notes one refresh of the cache `flag` that took `time`.
    pub fn update(&mut self, flag: CacheFlag, time: u32)
        requires
            old(self).0@[flag.spec_index() as int].1 < u32::MAX,
        ensures
            final(self).0@ == old(self).0@.update(
                flag.spec_index() as int,
                (time, (old(self).0@[flag.spec_index() as int].1 + 1) as u32),
            ),
    {
        let i = flag.index();
        let count = self.0[i].1;
        self.0[i] = (time, count + 1);
    }
}

/// The ways in view, parted into lines and areas.
pub struct WayAreaCache {
    pub ways: Vec<Id>,
    pub areas: Vec<Id>,
}

/// The nodes to draw: of the nodes that stand at one position, one.
pub struct NodeDedupCache {
    pub way_nodes: Vec<Id>,
    pub orphan_nodes: Vec<Id>,
}

/// An edit.
pub enum Change {
    /// Puts the way in the place of the way with this identifier.
    UpdateWay(Id, Way),
}

/// What a `Change` holds, as contracts see it.
pub enum ChangeView {
    UpdateWay(Id, WayView),
}

impl View for Change {
    type V = ChangeView;

    open spec fn view(&self) -> ChangeView {
        match self {
            Change::UpdateWay(id, way) => ChangeView::UpdateWay(*id, way@),
        }
    }
}

impl Change {
    /// The line that the history shows for the edit: the name of the way
    /// where it has one, else its identifier.
    pub fn describe(&self) -> (r: String)
        ensures
            r@ == self@.description(),
    {
        match self {
            Change::UpdateWay(id, way) => {
                match way.tags.get("name") {
                    Some(name) => {
                        let mut r = String::from_str("Updated ");
                        r.append(name.as_str());
                        r
                    },
                    None => {
                        let mut r = String::from_str("Updated Way ");
                        push_decimal(&mut r, *id);
                        r
                    },
                }
            },
        }
    }
}

impl ChangeView {
    /// The line that the history shows for the edit.
    pub open spec fn description(self) -> Seq<char> {
        match crate::tags::value_of(self.way().tags, "name"@) {
            Some(name) => "Updated "@ + name,
            None => "Updated Way "@ + decimal_text(self.target() as nat),
        }
    }

    /// The identifier of the way that the edit is about.
    pub open spec fn target(self) -> Id {
        match self {
            ChangeView::UpdateWay(id, _) => id,
        }
    }

    /// The way that the edit puts in place.
    pub open spec fn way(self) -> WayView {
        match self {
            ChangeView::UpdateWay(_, way) => way,
        }
    }
}

/// The log after `change` is applied: an edit to the way that the last
/// entry is about takes that entry's place, any other edit goes to the end.
pub open spec fn log_with(log: Seq<ChangeView>, change: ChangeView) -> Seq<ChangeView> {
    if log.len() > 0 && log.last().target() == change.target() {
        log.drop_last().push(change)
    } else {
        log.push(change)
    }
}

/// A node or a way of the store.
pub enum ElementRef<'a> {
    Node(&'a Node),
    Way(&'a Way),
}

/// The identifier of a node or of a way.
#[derive(Debug, Clone, Copy, PartialEq, Eq, Structural)]
pub enum ElementId {
    Node(Id),
    Way(Id),
}

impl ElementId {
    pub open spec fn spec_id(self) -> Id {
        match self {
            ElementId::Node(id) => id,
            ElementId::Way(id) => id,
        }
    }

    pub fn id_ref(&self) -> (r: &Id)
        ensures
            *r == self.spec_id(),
    {
        match self {
            ElementId::Node(id) => id,
            ElementId::Way(id) => id,
        }
    }
}

impl<'a> ElementRef<'a> {
    pub fn element_id(&self) -> (r: ElementId)
        ensures
            r == (match *self {
                ElementRef::Node(n) => ElementId::Node(n.id),
                ElementRef::Way(w) => ElementId::Way(w.id),
            }),
    {
        match self {
            ElementRef::Node(n) => ElementId::Node(n.id),
            ElementRef::Way(w) => ElementId::Way(w.id),
        }
    }

    pub fn id_ref(&self) -> (r: &Id)
        ensures
            *r == (match *self {
                ElementRef::Node(n) => n.id,
                ElementRef::Way(w) => w.id,
            }),
    {
        match self {
            ElementRef::Node(n) => &n.id,
            ElementRef::Way(w) => &w.id,
        }
    }

    pub fn tags(&self) -> (r: &Tags)
        ensures
            r@ == (match *self {
                ElementRef::Node(n) => n.tags@,
                ElementRef::Way(w) => w.tags@,
            }),
    {
        match self {
            ElementRef::Node(n) => &n.tags,
            ElementRef::Way(w) => &w.tags,
        }
    }

    /// The value of the tag `name`.
    pub fn name(&self) -> (r: Option<&str>)
        ensures
            r.is_some() == crate::tags::has_key(self.tags_view(), "name"@),
            r matches Some(s) ==> Some(s@) == crate::tags::value_of(self.tags_view(), "name"@),
    {
        let found = match self {
            ElementRef::Node(n) => n.tags.get("name"),
            ElementRef::Way(w) => w.tags.get("name"),
        };
        match found {
            Some(s) => Some(s.as_str()),
            None => None,
        }
    }

    /// The tags of the element, as contracts see them.
    pub open spec fn tags_view(&self) -> crate::tags::TagSeq {
        match *self {
            ElementRef::Node(n) => n.tags@,
            ElementRef::Way(w) => w.tags@,
        }
    }

    pub fn type_str(&self) -> (r: &'static str)
        ensures
            r@ == (match *self {
                ElementRef::Node(_) => "Node"@,
                ElementRef::Way(_) => "Way"@,
            }),
    {
        match self {
            ElementRef::Node(_) => "Node",
            ElementRef::Way(_) => "Way",
        }
    }
}

/// Every identifier of `s` is that of a node of the store.
pub open spec fn known_nodes(d: OsmDataView, s: Seq<Id>) -> bool {
    forall|i: int| 0 <= i < s.len() ==> d.nodes.contains_key(#[trigger] s[i])
}

/// Every identifier of `s` is that of a way of the store.
pub open spec fn known_ways(d: OsmDataView, s: Seq<Id>) -> bool {
    forall|i: int| 0 <= i < s.len() ==> d.ways.contains_key(#[trigger] s[i])
}

/// The store, the index, the lists of features in view, the log of edits
/// and the derived caches of one editor session.
pub struct EditorOsmData {
    /// The latest state of the features.
    pub data: OsmData,
    pub rtree_data: RStarOsmData,
    /// Where the view stood when the lists of features in view were made.
    pub view_start: Coordinate,
    pub nodes_in_view: Vec<Id>,
    pub ways_in_view: Vec<Id>,
    /// Asks for the lists of features in view to be made anew.
    pub refresh_in_view_flag: bool,
    pub changes: Vec<Change>,
    pub cache_flags: CacheBitflag,
    /// Where each projected node stood on screen when the nodes were
    /// projected.
    pub projected_nodes: HashMap<Id, Pos2>,
    pub orphan_nodes: Vec<Id>,
    pub way_area: WayAreaCache,
    pub node_dedup: NodeDedupCache,
    pub node_usage: HashMap<Id, Vec<Id>>,
    /// The mesh of each area as it was when the meshes were made.
    pub way_mesh: HashMap<Id, MeshData>,
    pub area_size_ordered: AreaSizeOrderedCache,
    /// Where the view stood when the nodes were projected.
    pub node_start: Coordinate,
    /// Where the view stood when the meshes were made.
    pub mesh_start: Coordinate,
    pub node_offset_move: Vec2,
    pub mesh_offset_move: Vec2,
    pub node_offset_resize: Vec2,
    pub mesh_offset_resize: Vec2,
}

impl EditorOsmData {
    /// The projected position of each node that has one.
    pub open spec fn projected(&self) -> Map<Id, Pos2> {
        self.projected_nodes@
    }

    /// The mesh of each area that has one.
    pub open spec fn meshes(&self) -> Map<Id, MeshView> {
        Map::new(|a: Id| self.way_mesh@.contains_key(a), |a: Id| self.way_mesh@[a]@)
    }

    /// The log of edits.
    pub open spec fn log(&self) -> Seq<ChangeView> {
        self.changes@.map_values(|c: Change| c@)
    }

    /// The entries of the paint order.
    pub open spec fn paint_order(&self) -> Seq<AreaEntry> {
        area_entries(self.area_size_ordered)
    }

    /// The index holds the nodes of the store at their positions, and its
    /// ways are ways of the store.
    pub open spec fn index_wf(&self) -> bool {
        let d = self.data@;
        &&& self.rtree_data.node_seq().map_values(|e: crate::r_star::NodeEntry| e.id).no_duplicates()
        &&& self.rtree_data.way_seq().map_values(|e: crate::r_star::WayEntry| e.id).no_duplicates()
        &&& forall|e: crate::r_star::NodeEntry| #[trigger]
            self.rtree_data.node_seq().contains(e) <==> d.nodes.contains_key(e.id) && d.nodes[e.id].pos
                == e.pos
        &&& forall|e: crate::r_star::WayEntry| #[trigger]
            self.rtree_data.way_seq().contains(e) ==> d.ways.contains_key(e.id)
    }

    /// The invariant of the bank: the store is well-formed, the index
    /// belongs to it, and every list holds identifiers of the store, none
    /// twice. `new` establishes it and every method keeps it.
    pub open spec fn wf(&self) -> bool {
        let d = self.data@;
        &&& self.data.wf()
        &&& self.index_wf()
        &&& known_nodes(d, self.nodes_in_view@)
        &&& self.nodes_in_view@.no_duplicates()
        &&& known_ways(d, self.ways_in_view@)
        &&& self.ways_in_view@.no_duplicates()
        &&& known_nodes(d, self.orphan_nodes@)
        &&& self.orphan_nodes@.no_duplicates()
        &&& known_ways(d, self.way_area.ways@)
        &&& self.way_area.ways@.no_duplicates()
        &&& known_ways(d, self.way_area.areas@)
        &&& self.way_area.areas@.no_duplicates()
        &&& known_nodes(d, self.node_dedup.way_nodes@)
        &&& known_nodes(d, self.node_dedup.orphan_nodes@)
    }

    /// Of an index that holds the nodes of the store at their positions,
    /// the nodes located in a box are exactly the nodes of the store in it.
    pub proof fn lemma_nodes_in_box(&self, query: Aabb)
        requires
            self.index_wf(),
        ensures
            forall|id: Id|
                nodes_located(self.rtree_data.node_seq(), query).contains(id)
                    <==> self.data@.nodes.contains_key(id) && query.contains(
                    self.data@.nodes[id].pos,
                ),
    {
        let d = self.data@;
        let ns = self.rtree_data.node_seq();
        let np = |e: NodeEntry| query.contains(e.pos);
        lemma_filter_keeps_distinct(ns, np, |e: NodeEntry| e.id);
        let nf = ns.filter(np);
        let nodes = nodes_located(ns, query);
        assert forall|id: Id|
            nodes.contains(id) <==> d.nodes.contains_key(id) && query.contains(d.nodes[id].pos) by {
            if nodes.contains(id) {
                let i = choose|i: int| 0 <= i < nodes.len() && nodes[i] == id;
                assert(nf.contains(nf[i]));
                assert(ns.contains(nf[i]));
            }
            if d.nodes.contains_key(id) && query.contains(d.nodes[id].pos) {
                let e = NodeEntry { id, pos: d.nodes[id].pos };
                assert(ns.contains(e));
                assert(nf.contains(e));
                let i = choose|i: int| 0 <= i < nf.len() && nf[i] == e;
                assert(nodes[i] == id);
            }
        }
    }

    /// An empty bank with nothing pending.
    pub fn new() -> (r: Self)
        ensures
            r.wf(),
            r.data@.nodes == Map::<Id, crate::data::NodeView>::empty(),
            r.data@.ways == Map::<Id, WayView>::empty(),
            r.rtree_data.indexes(r.data@),
            r.nodes_in_view@ == Seq::<Id>::empty(),
            r.ways_in_view@ == Seq::<Id>::empty(),
            !r.refresh_in_view_flag,
            r.log() == Seq::<ChangeView>::empty(),
            r.cache_flags.is_clean(),
            r.projected() == Map::<Id, Pos2>::empty(),
            r.meshes() == Map::<Id, MeshView>::empty(),
            r.orphan_nodes@ == Seq::<Id>::empty(),
            r.way_area.ways@ == Seq::<Id>::empty(),
            r.way_area.areas@ == Seq::<Id>::empty(),
            r.node_dedup.way_nodes@ == Seq::<Id>::empty(),
            r.node_dedup.orphan_nodes@ == Seq::<Id>::empty(),
            r.node_usage@ == Map::<Id, Vec<Id>>::empty(),
            r.paint_order() == Seq::<AreaEntry>::empty(),
            r.node_offset_move == Vec2::zero(),
            r.mesh_offset_move == Vec2::zero(),
            r.node_offset_resize == Vec2::zero(),
            r.mesh_offset_resize == Vec2::zero(),
            r.orphans_fresh(),
            r.way_area_fresh(),
            r.dedup_fresh(),
            r.usage_fresh(),
            r.projection_covers(),
            r.meshes_fresh(),
            r.paint_order_fresh(),
            r.sound(),
            r.data.closed(),
    {
        let data = OsmData::new();
        let rtree_data = RStarOsmData::from(&data);
        let r = EditorOsmData {
            data,
            rtree_data,
            view_start: Coordinate::default(),
            nodes_in_view: Vec::new(),
            ways_in_view: Vec::new(),
            refresh_in_view_flag: false,
            changes: Vec::new(),
            cache_flags: CacheBitflag::none(),
            projected_nodes: HashMap::new(),
            orphan_nodes: Vec::new(),
            way_area: WayAreaCache { ways: Vec::new(), areas: Vec::new() },
            node_dedup: NodeDedupCache { way_nodes: Vec::new(), orphan_nodes: Vec::new() },
            node_usage: HashMap::new(),
            way_mesh: HashMap::new(),
            area_size_ordered: area_map_new(),
            node_start: Coordinate::default(),
            mesh_start: Coordinate::default(),
            node_offset_move: Vec2::zero(),
            mesh_offset_move: Vec2::zero(),
            node_offset_resize: Vec2::zero(),
            mesh_offset_resize: Vec2::zero(),
        };
        assert(r.meshes() =~= Map::<Id, MeshView>::empty());
        assert(r.log() =~= Seq::<ChangeView>::empty());
        proof {
            let d = r.data@;
            let none = Seq::<Id>::empty();
            reveal(Seq::filter);
            assert(orphans_of(d, none) =~= none);
            assert(line_ways(d, none) =~= none);
            assert(area_ways(d, none) =~= none);
            assert(way_endpoints(d, none) =~= none);
            assert(none + none =~= none);
            assert(first_claims(d, none) =~= none);
            assert(doubled_sizes(d, r.projected(), none) =~= Seq::<AreaEntry>::empty());
            assert(order_by_area(Seq::<AreaEntry>::empty()) =~= Seq::<AreaEntry>::empty());
            assert(paint_order_of(d, r.projected(), none) =~= Seq::<AreaEntry>::empty());
            assert forall|n: Id| !listed_in(d, none, n) by {}
        }
        r
    }

    /// Applies an edit: the way takes its place in the store, and the edit
    /// is logged; an edit to the way that the last entry of the log is about
    /// takes that entry's place.
    pub fn apply_change(&mut self, change: Change)
        requires
            old(self).wf(),
            change@.way().id == change@.target(),
            crate::tags::unique_keys(change@.way().tags),
        ensures
            final(self).wf(),
            // the store still holds the nodes that its ways list where the
            // new way lists nodes of the store
            store_closed(old(self).data@) && known_nodes(old(self).data@, change@.way().nodes)
                ==> store_closed(final(self).data@),
            final(self).data@.nodes == old(self).data@.nodes,
            final(self).data@.ways == old(self).data@.ways.insert(
                change@.target(),
                change@.way(),
            ),
            final(self).log() == log_with(old(self).log(), change@),
            final(self).same_caches(old(self)),
            final(self).rtree_data == old(self).rtree_data,
            // an edit that changes the tags of a way alone and leaves it a line
            // or an area, as it was, leaves the flags telling the truth
            old(self).sound() && old(self).data@.ways.contains_key(change@.target())
                && change@.way().nodes == old(self).data@.ways[change@.target()].nodes
                && crate::model::way_is_area(change@.way()) == crate::model::way_is_area(
                old(self).data@.ways[change@.target()],
            ) ==> final(self).sound(),
    {
        let ghost before = *self;
        let ghost cv = change@;
        proof {
            let d = self.data@;
            if d.ways.contains_key(cv.target()) && cv.way().nodes == d.ways[cv.target()].nodes
                && crate::model::way_is_area(cv.way()) == crate::model::way_is_area(
                d.ways[cv.target()],
            ) {
                let e = OsmDataView { nodes: d.nodes, ways: d.ways.insert(cv.target(), cv.way()) };
                assert(e.ways.dom() =~= d.ways.dom());
                assert(crate::laws::same_shape(d, e));
            }
        }
        match change {
            Change::UpdateWay(id, way) => {
                self.data.replace_way(way.clone());
                let n = self.changes.len();
                let ghost log = self.log();
                let same = if n > 0 {
                    match &self.changes[n - 1] {
                        Change::UpdateWay(prev_id, _) => *prev_id == id,
                    }
                } else {
                    false
                };
                if same {
                    self.changes.pop();
                }
                self.changes.push(Change::UpdateWay(id, way));
                assert(self.log() =~= log_with(log, cv));
            },
        }
        proof {
            assert(self.meshes() =~= before.meshes());
            if before.sound() && crate::laws::same_shape(before.data@, self.data@) {
                crate::laws::lemma_tag_edit_keeps_sound(before, *self);
            }
        }
    }

    /// The derived caches, the lists of features in view and the flags
    /// are those of `other`.
    pub open spec fn same_caches(&self, other: &Self) -> bool {
        &&& self.view_start == other.view_start
        &&& self.nodes_in_view@ == other.nodes_in_view@
        &&& self.ways_in_view@ == other.ways_in_view@
        &&& self.refresh_in_view_flag == other.refresh_in_view_flag
        &&& self.cache_flags == other.cache_flags
        &&& self.projected() == other.projected()
        &&& self.orphan_nodes@ == other.orphan_nodes@
        &&& self.way_area.ways@ == other.way_area.ways@
        &&& self.way_area.areas@ == other.way_area.areas@
        &&& self.node_dedup.way_nodes@ == other.node_dedup.way_nodes@
        &&& self.node_dedup.orphan_nodes@ == other.node_dedup.orphan_nodes@
        &&& self.node_usage@ == other.node_usage@
        &&& self.meshes() == other.meshes()
        &&& self.paint_order() == other.paint_order()
        &&& self.node_start == other.node_start
        &&& self.mesh_start == other.mesh_start
        &&& self.node_offset_move == other.node_offset_move
        &&& self.mesh_offset_move == other.mesh_offset_move
        &&& self.node_offset_resize == other.node_offset_resize
        &&& self.mesh_offset_resize == other.mesh_offset_resize
    }

    /// The node or the way with the identifier `id`; the node where both
    /// have it.
    pub fn get(&self, id: &Id) -> (r: Option<ElementRef<'_>>)
        ensures
            r.is_some() == (self.data@.nodes.contains_key(*id) || self.data@.ways.contains_key(*id)),
            self.data@.nodes.contains_key(*id) ==> (r matches Some(ElementRef::Node(n)) && n@
                == self.data@.nodes[*id]),
            !self.data@.nodes.contains_key(*id) && self.data@.ways.contains_key(*id) ==> (
            r matches Some(ElementRef::Way(w)) && w@ == self.data@.ways[*id]),
    {
        match self.data.node(*id) {
            Some(n) => Some(ElementRef::Node(n)),
            None => match self.data.way(*id) {
                Some(w) => Some(ElementRef::Way(w)),
                None => None,
            },
        }
    }
}

impl Default for EditorOsmData {
    /// An empty bank with nothing pending.
    fn default() -> (r: Self)
        ensures
            r.wf(),
            r.sound(),
            r.cache_flags.is_clean(),
            r.log() == Seq::<ChangeView>::empty(),
            r.data@.nodes == Map::<Id, crate::data::NodeView>::empty(),
            r.data@.ways == Map::<Id, WayView>::empty(),
            r.nodes_in_view@ == Seq::<Id>::empty(),
            r.ways_in_view@ == Seq::<Id>::empty(),
            !r.refresh_in_view_flag,
    {
        EditorOsmData::new()
    }
}

/// Cache `f` is computed from cache `g`, by the table of dependencies or,
/// as the meshes are from the projected positions, in fact.
pub open spec fn reads(f: CacheFlag, g: CacheFlag) -> bool {
    f.depends_on(g) || (f == CacheFlag::WayMeshAndAreaSize && g == CacheFlag::NodeProjection)
}

/// The caches that an arrival of nodes makes stale.
pub open spec fn node_related(f: CacheFlag) -> bool {
    f == CacheFlag::NodeProjection || f == CacheFlag::NodeOrphan || f == CacheFlag::NodeDedup || f
        == CacheFlag::NodeUsage
}

/// The caches that an arrival of ways makes stale.
pub open spec fn way_related(f: CacheFlag) -> bool {
    f == CacheFlag::WayArea || f == CacheFlag::WayMeshAndAreaSize || f
        == CacheFlag::AreaSizeOrdered
}

/// A colour with its four channels.
#[derive(Debug, Clone, Copy, PartialEq, Eq, Structural)]
pub struct Color32 {
    pub r: u8,
    pub g: u8,
    pub b: u8,
    pub a: u8,
}

/// A corner of a mesh as it is drawn.
#[derive(Debug, Clone, Copy, PartialEq, Eq, Structural)]
pub struct Vertex {
    pub pos: Pos2,
    pub color: Color32,
}

/// A mesh as it is drawn: corners in place and in colour.
pub struct Mesh {
    pub indices: Vec<u32>,
    pub vertices: Vec<Vertex>,
}

impl EditorOsmData {
    // -----------------------------------------------------------------
    // What each cache holds when it is fresh
    // -----------------------------------------------------------------
    /// The orphan cache holds the nodes in view that no way of the store
    /// lists.
    pub open spec fn orphans_fresh(&self) -> bool {
        self.orphan_nodes@ == orphans_of(self.data@, self.nodes_in_view@)
    }

    /// The way and area cache parts the ways in view into lines and areas.
    pub open spec fn way_area_fresh(&self) -> bool {
        &&& self.way_area.ways@ == line_ways(self.data@, self.ways_in_view@)
        &&& self.way_area.areas@ == area_ways(self.data@, self.ways_in_view@)
    }

    /// The candidates of the dedup cache: the end nodes of the line ways,
    /// then the orphans.
    pub open spec fn dedup_candidates(&self) -> Seq<Id> {
        way_endpoints(self.data@, self.way_area.ways@) + self.orphan_nodes@
    }

    /// The nodes to draw: the kept end nodes of ways, then the kept orphans.
    pub open spec fn drawn_nodes(&self) -> Seq<Id> {
        self.node_dedup.way_nodes@ + self.node_dedup.orphan_nodes@
    }

    /// The dedup cache holds, of the end nodes of the line ways and the
    /// orphans together, the first at each position: the end nodes among them
    /// in one list, the orphans among them in the other.
    pub open spec fn dedup_fresh(&self) -> bool {
        &&& self.node_dedup.way_nodes@ == first_claims(
            self.data@,
            way_endpoints(self.data@, self.way_area.ways@),
        )
        &&& self.drawn_nodes() == first_claims(self.data@, self.dedup_candidates())
    }

    /// The usage cache holds, for each node that a way in view lists, the
    /// ways in view that list it.
    pub open spec fn usage_fresh(&self) -> bool {
        &&& forall|n: Id|
            self.node_usage@.contains_key(n) <==> listed_in(self.data@, self.ways_in_view@, n)
        &&& forall|n: Id| #[trigger]
            self.node_usage@.contains_key(n) ==> self.node_usage@[n]@ == usage_of(
                self.data@,
                self.ways_in_view@,
                n,
            )
    }

    /// The projection cache holds a position for each node that a way in
    /// view lists and for each orphan to draw, and none else.
    pub open spec fn projection_covers(&self) -> bool {
        forall|n: Id|
            #![trigger self.projected().contains_key(n)]
            self.projected().contains_key(n) <==> listed_in(self.data@, self.ways_in_view@, n)
                || self.node_dedup.orphan_nodes@.contains(n)
    }

    /// Every position in the projection cache is one that `project` gives
    /// for the node's coordinate.
    pub open spec fn projected_by<F: Fn(Coordinate) -> Pos2>(&self, project: &F) -> bool {
        forall|n: Id| #[trigger]
            self.projected().contains_key(n) ==> project.ensures(
                (cell(self.data@, n),),
                self.projected()[n],
            )
    }

    /// Every node of every area has a projected position.
    pub open spec fn areas_projected(&self) -> bool {
        ways_projected(self.data@, self.projected(), self.way_area.areas@)
    }

    /// The mesh cache holds the mesh of each area that has one.
    pub open spec fn meshes_fresh(&self) -> bool {
        &&& forall|a: Id|
            self.meshes().contains_key(a) <==> self.way_area.areas@.contains(a) && way_mesh_of(
                self.data@,
                self.projected(),
                a,
            ).is_some()
        &&& forall|a: Id| #[trigger]
            self.meshes().contains_key(a) ==> Some(self.meshes()[a]) == way_mesh_of(
                self.data@,
                self.projected(),
                a,
            )
    }

    /// Twice the signed area of way `a` on screen, which is a whole number.
    pub open spec fn doubled_area_of(&self, a: Id) -> int {
        doubled_area(points_of(self.projected(), self.data@.ways[a].nodes))
    }

    /// The paint order holds the areas, each with its signed area in square
    /// pixels, with the largest first.
    pub open spec fn paint_order_fresh(&self) -> bool {
        self.paint_order() == paint_order_of(self.data@, self.projected(), self.way_area.areas@)
    }

    /// Cache `f` holds what it holds when it is fresh.
    pub open spec fn fresh(&self, f: CacheFlag) -> bool {
        match f {
            CacheFlag::NodeProjection => self.projection_covers(),
            CacheFlag::NodeOrphan => self.orphans_fresh(),
            CacheFlag::NodeDedup => self.dedup_fresh(),
            CacheFlag::NodeUsage => self.usage_fresh(),
            CacheFlag::WayArea => self.way_area_fresh(),
            CacheFlag::WayMeshAndAreaSize => self.meshes_fresh(),
            CacheFlag::AreaSizeOrdered => self.paint_order_fresh(),
        }
    }

    /// Every cache that is not pending is fresh.
    pub open spec fn settled(&self) -> bool {
        forall|f: CacheFlag| !self.cache_flags.has(f) ==> #[trigger] self.fresh(f)
    }

    /// With each pending cache, the caches that are computed from it are
    /// pending.
    pub open spec fn closed(&self) -> bool {
        forall|f: CacheFlag, g: CacheFlag|
            #[trigger] reads(f, g) && self.cache_flags.has(g) ==> self.cache_flags.has(f)
    }

    /// The flags tell the truth: the lists of features in view are about
    /// to be made anew, or every cache that is not pending is fresh and
    /// nothing that a cache which is not pending is computed from is pending.
    pub open spec fn sound(&self) -> bool {
        self.refresh_in_view_flag || (self.settled() && self.closed())
    }

    /// Every cache holds what it holds when it is fresh.
    pub open spec fn all_fresh(&self) -> bool {
        &&& self.orphans_fresh()
        &&& self.way_area_fresh()
        &&& self.dedup_fresh()
        &&& self.usage_fresh()
        &&& self.projection_covers()
        &&& self.meshes_fresh()
        &&& self.paint_order_fresh()
    }

    // -----------------------------------------------------------------
    // Queries
    // -----------------------------------------------------------------
    /// Where node `node_id` stood on screen when the nodes were projected.
    pub fn get_projected_origin_pos(&self, node_id: &Id) -> (r: Option<Pos2>)
        ensures
            r == if self.projected().contains_key(*node_id) {
                Some(self.projected()[*node_id])
            } else {
                None
            },
    {
        match self.projected_nodes.get(node_id) {
            Some(p) => Some(*p),
            None => None,
        }
    }

    /// Where node `node_id` stands on screen now: its projected position
    /// moved by the two offsets of the nodes.
    pub fn get_projected_pos(&self, node_id: &Id) -> (r: Option<Pos2>)
        ensures
            r == if self.projected().contains_key(*node_id) {
                Some(
                    self.projected()[*node_id].translate(self.node_offset_move).translate(
                        self.node_offset_resize,
                    ),
                )
            } else {
                None
            },
    {
        match self.projected_nodes.get(node_id) {
            Some(p) => Some(p.translate(self.node_offset_move).translate(self.node_offset_resize)),
            None => None,
        }
    }

    /// Whether way `way_id` is in the store with a projected position for
    /// each of its nodes.
    pub fn is_way_projected(&self, way_id: &Id) -> (r: bool)
        ensures
            r == (self.data@.ways.contains_key(*way_id) && all_projected(
                self.projected(),
                self.data@.ways[*way_id].nodes,
            )),
    {
        match self.data.way(*way_id) {
            Some(way) => is_all_projected(&self.projected_nodes, &way.nodes),
            None => false,
        }
    }

    /// Where the nodes of way `way_id` stood on screen when the nodes were
    /// projected, in the way's order.
    pub fn get_projected_origin_positions_in_way(&self, way_id: &Id) -> (r: Vec<Pos2>)
        requires
            self.data@.ways.contains_key(*way_id),
            all_projected(self.projected(), self.data@.ways[*way_id].nodes),
        ensures
            r@ == points_of(self.projected(), self.data@.ways[*way_id].nodes),
    {
        let way = self.data.way(*way_id).unwrap();
        collect_points(&self.projected_nodes, &way.nodes)
    }

    /// Where the nodes of way `way_id` stand on screen now, in the way's
    /// order.
    pub fn get_projected_positions_in_way(&self, way_id: &Id) -> (r: Vec<Pos2>)
        requires
            self.data@.ways.contains_key(*way_id),
            all_projected(self.projected(), self.data@.ways[*way_id].nodes),
        ensures
            r@ == points_of(self.projected(), self.data@.ways[*way_id].nodes).map_values(
                |p: Pos2| p.translate(self.node_offset_move).translate(self.node_offset_resize),
            ),
    {
        let way = self.data.way(*way_id).unwrap();
        let ghost nodes = way@.nodes;
        let ghost shift = |p: Pos2|
            p.translate(self.node_offset_move).translate(self.node_offset_resize);
        let mut r: Vec<Pos2> = Vec::new();
        let mut i: usize = 0;
        while i < way.nodes.len()
            invariant
                i <= nodes.len(),
                nodes == way@.nodes,
                all_projected(self.projected(), nodes),
                shift == |p: Pos2|
                    p.translate(self.node_offset_move).translate(self.node_offset_resize),
                r@ == points_of(self.projected(), nodes.take(i as int)).map_values(shift),
            decreases nodes.len() - i,
        {
            assert(self.projected().contains_key(nodes[i as int]));
            let p = *self.projected_nodes.get(&way.nodes[i]).unwrap();
            r.push(p.translate(self.node_offset_move).translate(self.node_offset_resize));
            assert(r@ =~= points_of(self.projected(), nodes.take(i + 1)).map_values(shift));
            i = i + 1;
        }
        assert(nodes.take(nodes.len() as int) =~= nodes);
        r
    }

    /// The mesh of area `way_id` as it is drawn now: every corner moved by
    /// the two offsets of the meshes, and in the colour `color`.
    pub fn get_way_mesh(&self, way_id: &Id, color: Color32) -> (r: Mesh)
        requires
            self.meshes().contains_key(*way_id),
        ensures
            r.indices@ == self.meshes()[*way_id].indices,
            r.vertices@ == self.meshes()[*way_id].vertices.map_values(
                |p: Pos2|
                    (Vertex {
                        pos: p.translate(self.mesh_offset_move.plus(self.mesh_offset_resize)),
                        color,
                    }),
            ),
    {
        let data = self.way_mesh.get(way_id).unwrap();
        let offset = self.mesh_offset_move.plus(self.mesh_offset_resize);
        let ghost paint = |p: Pos2|
            (Vertex {
                pos: p.translate(self.mesh_offset_move.plus(self.mesh_offset_resize)),
                color,
            });
        let mut vertices: Vec<Vertex> = Vec::new();
        let mut i: usize = 0;
        while i < data.vertices.len()
            invariant
                i <= data.vertices@.len(),
                offset == self.mesh_offset_move.plus(self.mesh_offset_resize),
                paint == |p: Pos2|
                    (Vertex {
                        pos: p.translate(self.mesh_offset_move.plus(self.mesh_offset_resize)),
                        color,
                    }),
                vertices@ == data.vertices@.take(i as int).map_values(paint),
            decreases data.vertices@.len() - i,
        {
            vertices.push(Vertex { pos: data.vertices[i].translate(offset), color });
            assert(vertices@ =~= data.vertices@.take(i + 1).map_values(paint));
            i = i + 1;
        }
        assert(data.vertices@.take(data.vertices@.len() as int) =~= data.vertices@);
        let mut indices: Vec<u32> = Vec::new();
        let mut j: usize = 0;
        while j < data.indices.len()
            invariant
                j <= data.indices@.len(),
                indices@ == data.indices@.take(j as int),
            decreases data.indices@.len() - j,
        {
            indices.push(data.indices[j]);
            assert(indices@ =~= data.indices@.take(j + 1));
            j = j + 1;
        }
        assert(data.indices@.take(data.indices@.len() as int) =~= data.indices@);
        Mesh { indices, vertices }
    }

    /// The areas in the order in which they are painted: the largest
    /// first.
    pub fn area_ids_in_paint_order(&self) -> (r: Vec<Id>)
        ensures
            r@ == self.paint_order().map_values(|e: AreaEntry| e.0),
    {
        area_map_keys(&self.area_size_ordered)
    }

    /// The signed area of area `way_id` on screen, where the paint order has
    /// the area: in square pixels, so that a square of one pixel has the area
    /// 1 or -1, and with a half rounded away from zero.
    pub fn area_size_of(&self, way_id: &Id) -> (r: Option<i128>)
        ensures
            ({
                let i = entry_index(self.paint_order(), *way_id);
                if i < self.paint_order().len() {
                    r == Some(self.paint_order()[i].1)
                } else {
                    r.is_none()
                }
            }),
            self.wf() && self.paint_order_fresh() ==> r.is_some() == self.way_area.areas@.contains(
                *way_id,
            ),
            self.wf() && self.paint_order_fresh() ==> (r matches Some(a) ==> a == signed_area(
                points_of(self.projected(), self.data@.ways[*way_id].nodes),
            )),
    {
        proof {
            if self.wf() && self.paint_order_fresh() {
                self.lemma_paint_order_entries(*way_id);
                if self.way_area.areas@.contains(*way_id) {
                    self.data.lemma_way_lengths();
                    lemma_area_bound(points_of(self.projected(), self.data@.ways[*way_id].nodes));
                }
            }
        }
        area_map_get(&self.area_size_ordered, *way_id)
    }

    /// Where the paint order is fresh, it has an entry for `a` just where
    /// `a` is an area, and the entry holds the signed area of `a`.
    pub proof fn lemma_paint_order_entries(&self, a: Id)
        requires
            self.wf(),
            self.paint_order_fresh(),
        ensures
            entry_index(self.paint_order(), a) < self.paint_order().len()
                <==> self.way_area.areas@.contains(a),
            self.way_area.areas@.contains(a) ==> self.paint_order()[entry_index(
                self.paint_order(),
                a,
            )] == (a, signed_area(points_of(self.projected(), self.data@.ways[a].nodes)) as i128),
    {
        let areas = self.way_area.areas@;
        let sizes = doubled_sizes(self.data@, self.projected(), areas);
        let sorted = order_by_area(sizes);
        let order = self.paint_order();
        let i = entry_index(order, a);
        broadcast use vstd::seq_lib::group_to_multiset_ensures;

        lemma_order_by_area(sizes);
        lemma_entry_index(order, a);
        sorted.to_multiset_ensures();
        sizes.to_multiset_ensures();
        if i < order.len() {
            assert(order[i] == halved(sorted[i]));
            assert(sorted.contains(sorted[i]));
            assert(sizes.to_multiset().count(sorted[i]) > 0);
            assert(sizes.contains(sorted[i]));
            let k = choose|k: int| 0 <= k < sizes.len() && sizes[k] == sorted[i];
            assert(areas[k] == a);
            assert(self.data@.ways.contains_key(areas[k]));
            self.data.lemma_way_lengths();
            lemma_area_bound(points_of(self.projected(), self.data@.ways[a].nodes));
        }
        if areas.contains(a) {
            let k = choose|k: int| 0 <= k < areas.len() && areas[k] == a;
            assert(sizes[k].0 == a);
            assert(sizes.contains(sizes[k]));
            assert(sorted.to_multiset().count(sizes[k]) > 0);
            assert(sorted.contains(sizes[k]));
            let m = choose|m: int| 0 <= m < sorted.len() && sorted[m] == sizes[k];
            assert(order[m].0 == a);
            assert(i < order.len());
        }
    }

    /// The number of areas in the paint order.
    pub fn area_count(&self) -> (n: usize)
        ensures
            n == self.paint_order().len(),
    {
        area_map_len(&self.area_size_ordered)
    }

    // -----------------------------------------------------------------
    // Refreshing
    // -----------------------------------------------------------------
    /// Makes the lists of features in view anew from the index: the nodes
    /// in the box spanned by `a` and `b` and the ways whose bounding box
    /// intersects it. The request for this is thereby answered.
    pub fn refresh_elements_in_view(&mut self, a: Coordinate, b: Coordinate)
        requires
            old(self).wf(),
        ensures
            final(self).wf(),
            final(self).nodes_in_view@ == nodes_located(
                old(self).rtree_data.node_seq(),
                Aabb::spec_from_corners(a, b),
            ),
            final(self).ways_in_view@ == ways_located(
                old(self).rtree_data.way_seq(),
                Aabb::spec_from_corners(a, b),
            ),
            !final(self).refresh_in_view_flag,
            *final(self) == (EditorOsmData {
                nodes_in_view: final(self).nodes_in_view,
                ways_in_view: final(self).ways_in_view,
                refresh_in_view_flag: false,
                ..*old(self)
            }),
            // the nodes in view are exactly the nodes in the box
            forall|id: Id|
                final(self).nodes_in_view@.contains(id) <==> final(self).data@.nodes.contains_key(
                    id,
                ) && Aabb::spec_from_corners(a, b).contains(final(self).data@.nodes[id].pos),
            // where the index is up to date with the ways, the ways in view are
            // exactly the ways whose bounding box intersects the box
            old(self).rtree_data.indexes(old(self).data@) ==> forall|id: Id|
                final(self).ways_in_view@.contains(id) <==> final(self).data@.ways.contains_key(id)
                    && final(self).data@.ways[id].nodes.len() > 0 && crate::r_star::bbox_of(
                    crate::r_star::way_points(final(self).data@, id),
                ).intersects(Aabb::spec_from_corners(a, b)),
    {
        let (nodes, ways) = self.rtree_data.query_envelope(a, b);
        proof {
            if self.rtree_data.indexes(self.data@) {
                crate::laws::lemma_view_membership(
                    self.rtree_data,
                    self.data@,
                    Aabb::spec_from_corners(a, b),
                );
            }
            self.lemma_nodes_in_box(Aabb::spec_from_corners(a, b));
            let q = Aabb::spec_from_corners(a, b);
            let ns = self.rtree_data.node_seq();
            let ws = self.rtree_data.way_seq();
            let np = |e: NodeEntry| q.contains(e.pos);
            let wp = |e: WayEntry| e.bbox.intersects(q);
            lemma_filter_keeps_distinct(ns, np, |e: NodeEntry| e.id);
            lemma_filter_keeps_distinct(ws, wp, |e: WayEntry| e.id);
            assert forall|i: int| 0 <= i < nodes@.len() implies self.data@.nodes.contains_key(
                #[trigger] nodes@[i],
            ) by {
                let e = ns.filter(np)[i];
                assert(ns.filter(np).contains(e));
                assert(ns.contains(e));
            }
            assert forall|i: int| 0 <= i < ways@.len() implies self.data@.ways.contains_key(
                #[trigger] ways@[i],
            ) by {
                let e = ws.filter(wp)[i];
                assert(ws.filter(wp).contains(e));
                assert(ws.contains(e));
            }
        }
        self.nodes_in_view = nodes;
        self.ways_in_view = ways;
        self.refresh_in_view_flag = false;
    }

    /// Makes the orphan cache anew.
    pub fn refresh_orphan_nodes_cache(&mut self)
        requires
            old(self).wf(),
        ensures
            final(self).wf(),
            final(self).orphans_fresh(),
            old(self).orphans_fresh() ==> final(self).orphan_nodes@ == old(self).orphan_nodes@,
            forall|f: CacheFlag|
                final(self).cache_flags.has(f) == (old(self).cache_flags.has(f) && f
                    != CacheFlag::NodeOrphan),
            *final(self) == (EditorOsmData {
                orphan_nodes: final(self).orphan_nodes,
                cache_flags: final(self).cache_flags,
                ..*old(self)
            }),
    {
        let orphans = compute_orphans(&self.data, &self.nodes_in_view);
        proof {
            lemma_filter_ids(
                self.nodes_in_view@,
                |n: Id| !crate::model::is_parented(self.data@, n),
            );
            assert forall|i: int| 0 <= i < orphans@.len() implies self.data@.nodes.contains_key(
                #[trigger] orphans@[i],
            ) by {
                assert(orphans@.contains(orphans@[i]));
                assert(self.nodes_in_view@.contains(orphans@[i]));
            }
        }
        self.orphan_nodes = orphans;
        self.cache_flags.remove(CacheFlag::NodeOrphan);
    }

    /// Makes the way and area cache anew.
    pub fn refresh_way_area_cache(&mut self)
        requires
            old(self).wf(),
        ensures
            final(self).wf(),
            final(self).way_area_fresh(),
            old(self).way_area_fresh() ==> final(self).way_area.ways@ == old(self).way_area.ways@
                && final(self).way_area.areas@ == old(self).way_area.areas@,
            forall|f: CacheFlag|
                final(self).cache_flags.has(f) == (old(self).cache_flags.has(f) && f
                    != CacheFlag::WayArea),
            *final(self) == (EditorOsmData {
                way_area: final(self).way_area,
                cache_flags: final(self).cache_flags,
                ..*old(self)
            }),
    {
        let (ways, areas) = classify_ways(&self.data, &self.ways_in_view);
        proof {
            let d = self.data@;
            lemma_filter_ids(self.ways_in_view@, |w: Id| !crate::model::way_is_area(d.ways[w]));
            lemma_filter_ids(self.ways_in_view@, |w: Id| crate::model::way_is_area(d.ways[w]));
            assert forall|i: int| 0 <= i < ways@.len() implies d.ways.contains_key(
                #[trigger] ways@[i],
            ) by {
                assert(ways@.contains(ways@[i]));
                assert(self.ways_in_view@.contains(ways@[i]));
            }
            assert forall|i: int| 0 <= i < areas@.len() implies d.ways.contains_key(
                #[trigger] areas@[i],
            ) by {
                assert(areas@.contains(areas@[i]));
                assert(self.ways_in_view@.contains(areas@[i]));
            }
        }
        self.way_area = WayAreaCache { ways, areas };
        self.cache_flags.remove(CacheFlag::WayArea);
    }

    /// Makes the dedup cache anew. The orphan cache and the way and area
    /// cache must not be pending, and the store must hold the nodes that the
    /// line ways list.
    pub fn refresh_node_dedup_cache(&mut self)
        requires
            old(self).wf(),
            old(self).cache_flags.deps_clean(CacheFlag::NodeDedup),
            ways_closed(old(self).data@, old(self).way_area.ways@),
        ensures
            final(self).wf(),
            final(self).dedup_fresh(),
            // no two nodes to draw stand at one position
            forall|a: int, b: int|
                0 <= a < b < final(self).drawn_nodes().len() ==> cell(
                    final(self).data@,
                    #[trigger] final(self).drawn_nodes()[a],
                ) != cell(final(self).data@, #[trigger] final(self).drawn_nodes()[b]),
            // every candidate stands where a node to draw stands
            forall|i: int|
                0 <= i < final(self).dedup_candidates().len() ==> exists|a: int|
                    0 <= a < final(self).drawn_nodes().len() && cell(
                        final(self).data@,
                        #[trigger] final(self).drawn_nodes()[a],
                    ) == cell(final(self).data@, #[trigger] final(self).dedup_candidates()[i]),
            old(self).dedup_fresh() ==> final(self).node_dedup.way_nodes@ == old(
                self,
            ).node_dedup.way_nodes@ && final(self).node_dedup.orphan_nodes@ == old(
                self,
            ).node_dedup.orphan_nodes@,
            forall|f: CacheFlag|
                final(self).cache_flags.has(f) == (old(self).cache_flags.has(f) && f
                    != CacheFlag::NodeDedup),
            *final(self) == (EditorOsmData {
                node_dedup: final(self).node_dedup,
                cache_flags: final(self).cache_flags,
                ..*old(self)
            }),
    {
        let ends = collect_endpoints(&self.data, &self.way_area.ways);
        let (way_nodes, orphan_nodes) = dedup_two(&self.data, &ends, &self.orphan_nodes);
        proof {
            let d = self.data@;
            lemma_first_claims(d, ends@ + self.orphan_nodes@);
            assert forall|i: int| 0 <= i < way_nodes@.len() implies d.nodes.contains_key(
                #[trigger] way_nodes@[i],
            ) by {
                assert(ends@.contains(way_nodes@[i]));
            }
            assert forall|i: int| 0 <= i < orphan_nodes@.len() implies d.nodes.contains_key(
                #[trigger] orphan_nodes@[i],
            ) by {
                assert(self.orphan_nodes@.contains(orphan_nodes@[i]));
            }
            if old(self).dedup_fresh() {
                crate::seq_lemmas::lemma_same_tail(
                    way_nodes@,
                    orphan_nodes@,
                    old(self).node_dedup.orphan_nodes@,
                );
            }
        }
        let ghost cands = ends@ + self.orphan_nodes@;
        let ghost drawn = way_nodes@ + orphan_nodes@;
        self.node_dedup = NodeDedupCache { way_nodes, orphan_nodes };
        self.cache_flags.remove(CacheFlag::NodeDedup);
        proof {
            let d = self.data@;
            assert(self.dedup_candidates() == cands);
            assert(self.drawn_nodes() == drawn);
            assert(drawn == first_claims(d, cands));
            assert forall|i: int| 0 <= i < cands.len() implies exists|a: int|
                0 <= a < drawn.len() && cell(d, #[trigger] drawn[a]) == cell(
                    d,
                    #[trigger] cands[i],
                ) by {
                let a = choose|a: int|
                    0 <= a < first_claims(d, cands).len() && cell(
                        d,
                        #[trigger] first_claims(d, cands)[a],
                    ) == cell(d, cands[i]);
                assert(cell(d, drawn[a]) == cell(d, cands[i]));
            }
        }
    }

    /// Makes the usage cache anew.
    pub fn refresh_node_usage_cache(&mut self)
        requires
            old(self).wf(),
        ensures
            final(self).wf(),
            final(self).usage_fresh(),
            forall|f: CacheFlag|
                final(self).cache_flags.has(f) == (old(self).cache_flags.has(f) && f
                    != CacheFlag::NodeUsage),
            *final(self) == (EditorOsmData {
                node_usage: final(self).node_usage,
                cache_flags: final(self).cache_flags,
                ..*old(self)
            }),
    {
        let usage = compute_usage(&self.data, &self.ways_in_view);
        proof {
            assert forall|n: Id|
                usage@.contains_key(n) <==> listed_in(self.data@, self.ways_in_view@, n) by {
                crate::model::lemma_usage_of(self.data@, self.ways_in_view@, n);
            }
        }
        self.node_usage = usage;
        self.cache_flags.remove(CacheFlag::NodeUsage);
    }

    /// Makes the projection cache anew with `project`, and takes
    /// `start_pos` as the place where the view stands; the offsets of the
    /// nodes start again at zero. The dedup cache must not be pending, and
    /// the store must hold the nodes that the ways in view list.
    pub fn refresh_projected_nodes_cache<F: Fn(Coordinate) -> Pos2>(
        &mut self,
        project: &F,
        start_pos: Coordinate,
    )
        requires
            old(self).wf(),
            old(self).cache_flags.deps_clean(CacheFlag::NodeProjection),
            ways_closed(old(self).data@, old(self).ways_in_view@),
            forall|c: Coordinate| project.requires((c,)),
        ensures
            final(self).wf(),
            final(self).projection_covers(),
            final(self).projected_by(project),
            forall|f: CacheFlag|
                final(self).cache_flags.has(f) == (old(self).cache_flags.has(f) && f
                    != CacheFlag::NodeProjection),
            *final(self) == (EditorOsmData {
                projected_nodes: final(self).projected_nodes,
                cache_flags: final(self).cache_flags,
                node_start: start_pos,
                node_offset_move: Vec2::zero(),
                node_offset_resize: Vec2::zero(),
                ..*old(self)
            }),
    {
        self.reset_node_offsets(start_pos);
        let projected = project_nodes(
            &self.data,
            &self.ways_in_view,
            &self.node_dedup.orphan_nodes,
            project,
        );
        self.projected_nodes = projected;
        self.cache_flags.remove(CacheFlag::NodeProjection);
    }

    /// Makes the mesh cache anew, and takes `start_pos` as the place where
    /// the view stands; the offsets of the meshes start again at zero. The
    /// way and area cache must not be pending, and every node of every area
    /// must have a projected position. An area gets a mesh where its polygon
    /// is `tessellable` and the tessellator does not fail on it: one with a
    /// coordinate more than 2 to the power 23 pixels from the origin, with
    /// edges that meet, or with an edge that passes a corner within its
    /// `clearance` gets none.
    pub fn refresh_way_mesh_and_area_size_cache(&mut self, start_pos: Coordinate)
        requires
            old(self).wf(),
            old(self).cache_flags.deps_clean(CacheFlag::WayMeshAndAreaSize),
            old(self).areas_projected(),
        ensures
            final(self).wf(),
            final(self).meshes_fresh(),
            // the indices of each mesh come in threes, and each names a vertex
            forall|a: Id| #[trigger]
                final(self).meshes().contains_key(a) ==> final(self).meshes()[a].indices.len() % 3
                    == 0 && indices_in_range(final(self).meshes()[a]),
            old(self).meshes_fresh() ==> final(self).meshes() == old(self).meshes(),
            forall|f: CacheFlag|
                final(self).cache_flags.has(f) == (old(self).cache_flags.has(f) && f
                    != CacheFlag::WayMeshAndAreaSize),
            *final(self) == (EditorOsmData {
                way_mesh: final(self).way_mesh,
                cache_flags: final(self).cache_flags,
                mesh_start: start_pos,
                mesh_offset_move: Vec2::zero(),
                mesh_offset_resize: Vec2::zero(),
                ..*old(self)
            }),
    {
        self.reset_mesh_offsets(start_pos);
        let meshes = compute_meshes(&self.data, &self.way_area.areas, &self.projected_nodes);
        self.way_mesh = meshes;
        self.cache_flags.remove(CacheFlag::WayMeshAndAreaSize);
        proof {
            if old(self).meshes_fresh() {
                assert forall|a: Id| self.meshes().contains_key(a) implies #[trigger] self.meshes()[a]
                    == old(self).meshes()[a] by {
                    assert(old(self).meshes().contains_key(a));
                }
                assert(self.meshes() =~= old(self).meshes());
            }
        }
    }

    /// Makes the paint order anew. The projection cache and the way and
    /// area cache must not be pending, and every node of every area must have
    /// a projected position.
    pub fn refresh_area_size_ordered_cache(&mut self)
        requires
            old(self).wf(),
            old(self).cache_flags.deps_clean(CacheFlag::AreaSizeOrdered),
            old(self).areas_projected(),
        ensures
            final(self).wf(),
            final(self).paint_order_fresh(),
            // the larger area comes first
            crate::area_order::largest_first(final(self).paint_order()),
            final(self).paint_order().len() == final(self).way_area.areas@.len(),
            old(self).paint_order_fresh() ==> final(self).paint_order() == old(self).paint_order(),
            forall|f: CacheFlag|
                final(self).cache_flags.has(f) == (old(self).cache_flags.has(f) && f
                    != CacheFlag::AreaSizeOrdered),
            *final(self) == (EditorOsmData {
                area_size_ordered: final(self).area_size_ordered,
                cache_flags: final(self).cache_flags,
                ..*old(self)
            }),
    {
        let sorted = compute_paint_order(&self.data, &self.way_area.areas, &self.projected_nodes);
        proof {
            let sizes = doubled_sizes(self.data@, self.projected(), self.way_area.areas@);
            assert(sizes.map_values(|e: AreaEntry| e.0) =~= self.way_area.areas@);
            lemma_order_keeps_keys(sizes);
            lemma_order_by_area(sizes);
            lemma_halved_order(order_by_area(sizes));
            assert(sorted@.map_values(|e: AreaEntry| e.0) =~= order_by_area(sizes).map_values(
                |e: AreaEntry| e.0,
            ));
        }
        area_map_clear(&mut self.area_size_ordered);
        let mut i: usize = 0;
        while i < sorted.len()
            invariant
                i <= sorted@.len(),
                sorted@.map_values(|e: AreaEntry| e.0).no_duplicates(),
                area_entries(self.area_size_ordered) == sorted@.take(i as int),
                *self == (EditorOsmData { area_size_ordered: self.area_size_ordered, ..*old(self) }),
            decreases sorted@.len() - i,
        {
            let e = sorted[i];
            proof {
                let seen = sorted@.take(i as int);
                let keys = sorted@.map_values(|e: AreaEntry| e.0);
                assert forall|j: int| 0 <= j < seen.len() implies (#[trigger] seen[j]).0 != e.0 by {
                    assert(keys[j] == sorted@[j].0);
                    assert(keys[i as int] == sorted@[i as int].0);
                }
                lemma_entry_index_absent(seen, e.0);
                assert(sorted@.take(i + 1) =~= seen.push(e));
            }
            area_map_insert(&mut self.area_size_ordered, e.0, e.1);
            i = i + 1;
        }
        assert(sorted@.take(sorted@.len() as int) =~= sorted@);
        self.cache_flags.remove(CacheFlag::AreaSizeOrdered);
    }

    /// Takes in the features of `from` whose identifier the store does not
    /// have yet, marks the caches that the arrival makes stale, and builds
    /// the index anew. Nothing happens where `from` is empty. The store that
    /// comes of it must hold the nodes that its ways list: the index is made
    /// of them.
    pub fn append_new_nodes_ways(&mut self, from: OsmData)
        requires
            old(self).wf(),
            from.wf(),
            from@.nodes.dom().len() > 0 || from@.ways.dom().len() > 0 ==> store_closed(
                merge_store(old(self).data@, from@),
            ),
        ensures
            final(self).wf(),
            final(self).data@ == merge_store(old(self).data@, from@),
            forall|f: CacheFlag|
                #![trigger final(self).cache_flags.has(f)]
                final(self).cache_flags.has(f) == (old(self).cache_flags.has(f) || (
                from@.ways.dom().len() > 0 && way_related(f)) || (from@.nodes.dom().len() > 0
                    && node_related(f))),
            from@.nodes.dom().len() > 0 || from@.ways.dom().len() > 0
                ==> final(self).rtree_data.indexes(final(self).data@),
            from@.nodes.dom().len() == 0 && from@.ways.dom().len() == 0 ==> final(self).rtree_data
                == old(self).rtree_data,
            final(self).log() == old(self).log(),
            final(self).same_caches(&EditorOsmData {
                cache_flags: final(self).cache_flags,
                ..*old(self)
            }),
    {
        if from.is_empty() {
            proof {
                assert(self.data@.nodes =~= merge_store(self.data@, from@).nodes) by {
                    assert(from@.nodes.dom().len() == 0);
                    from.lemma_wf();
                    assert(from@.nodes.dom() =~= Set::<Id>::empty());
                }
                assert(self.data@.ways =~= merge_store(self.data@, from@).ways) by {
                    from.lemma_wf();
                    assert(from@.ways.dom() =~= Set::<Id>::empty());
                }
            }
            return ;
        }
        if from.way_count() > 0 {
            self.cache_flags.insert(CacheFlag::WayArea);
            self.cache_flags.insert(CacheFlag::WayMeshAndAreaSize);
            self.cache_flags.insert(CacheFlag::AreaSizeOrdered);
        }
        if from.node_count() > 0 {
            self.cache_flags.insert(CacheFlag::NodeProjection);
            self.cache_flags.insert(CacheFlag::NodeOrphan);
            self.cache_flags.insert(CacheFlag::NodeDedup);
            self.cache_flags.insert(CacheFlag::NodeUsage);
        }
        self.data.merge(from);
        self.rtree_data = RStarOsmData::from(&self.data);
    }

    fn reset_node_offsets(&mut self, start: Coordinate)
        ensures
            *final(self) == (EditorOsmData {
                node_start: start,
                node_offset_move: Vec2::zero(),
                node_offset_resize: Vec2::zero(),
                ..*old(self)
            }),
    {
        self.node_offset_move = Vec2::zero();
        self.node_offset_resize = Vec2::zero();
        self.node_start = start;
    }

    fn reset_mesh_offsets(&mut self, start: Coordinate)
        ensures
            *final(self) == (EditorOsmData {
                mesh_start: start,
                mesh_offset_move: Vec2::zero(),
                mesh_offset_resize: Vec2::zero(),
                ..*old(self)
            }),
    {
        self.mesh_offset_move = Vec2::zero();
        self.mesh_offset_resize = Vec2::zero();
        self.mesh_start = start;
    }
}

} // verus!
