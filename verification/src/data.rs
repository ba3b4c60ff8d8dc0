//! The feature store: nodes and ways by identifier.

use crate::tags::{unique_keys, TagSeq, Tags};
use std::collections::HashMap;
use vstd::prelude::*;

verus! {

broadcast use vstd::std_specs::hash::group_hash_axioms;

/// Identifier of a node or of a way.
pub type Id = u64;

/// A geographic position in units of 1e-7 degree. Two positions closer
/// together than one unit are one position.
#[derive(Debug, Copy, Clone, PartialEq, Eq, Structural)]
pub struct Coordinate {
    pub lat: i32,
    pub lon: i32,
}

impl Coordinate {
    pub fn new(lat: i32, lon: i32) -> (c: Self)
        ensures
            c == (Coordinate { lat, lon }),
    {
        Coordinate { lat, lon }
    }
}

impl Default for Coordinate {
    fn default() -> (c: Self)
        ensures
            c == (Coordinate { lat: 0, lon: 0 }),
    {
        Coordinate { lat: 0, lon: 0 }
    }
}

/// A point feature.
pub struct Node {
    pub id: Id,
    pub pos: Coordinate,
    pub tags: Tags,
    pub changeset: u64,
    pub version: u32,
}

/// What a `Node` holds, as contracts see it.
pub struct NodeView {
    pub id: Id,
    pub pos: Coordinate,
    pub tags: TagSeq,
    pub changeset: u64,
    pub version: u32,
}

impl View for Node {
    type V = NodeView;

    open spec fn view(&self) -> NodeView {
        NodeView {
            id: self.id,
            pos: self.pos,
            tags: self.tags@,
            changeset: self.changeset,
            version: self.version,
        }
    }
}

impl Clone for Node {
    fn clone(&self) -> (r: Self)
        ensures
            r@ == self@,
    {
        Node {
            id: self.id,
            pos: self.pos,
            tags: self.tags.clone(),
            changeset: self.changeset,
            version: self.version,
        }
    }
}

/// A line feature: an ordered list of node identifiers.
pub struct Way {
    pub id: Id,
    pub nodes: Vec<Id>,
    pub tags: Tags,
    pub changeset: u64,
    pub version: u32,
}

/// What a `Way` holds, as contracts see it.
pub struct WayView {
    pub id: Id,
    pub nodes: Seq<Id>,
    pub tags: TagSeq,
    pub changeset: u64,
    pub version: u32,
}

impl View for Way {
    type V = WayView;

    open spec fn view(&self) -> WayView {
        WayView {
            id: self.id,
            nodes: self.nodes@,
            tags: self.tags@,
            changeset: self.changeset,
            version: self.version,
        }
    }
}

/// Copies a list of identifiers.
pub fn clone_ids(ids: &Vec<Id>) -> (r: Vec<Id>)
    ensures
        r@ == ids@,
{
    let mut r: Vec<Id> = Vec::new();
    let mut i: usize = 0;
    while i < ids.len()
        invariant
            i <= ids@.len(),
            r@ == ids@.take(i as int),
        decreases ids@.len() - i,
    {
        r.push(ids[i]);
        assert(ids@.take(i + 1) =~= ids@.take(i as int).push(ids@[i as int]));
        i = i + 1;
    }
    assert(ids@.take(ids@.len() as int) =~= ids@);
    r
}

impl Clone for Way {
    fn clone(&self) -> (r: Self)
        ensures
            r@ == self@,
    {
        Way {
            id: self.id,
            nodes: clone_ids(&self.nodes),
            tags: self.tags.clone(),
            changeset: self.changeset,
            version: self.version,
        }
    }
}

/// A way is closed when its first and last node are the same; a way without
/// nodes counts as closed.
pub open spec fn way_closed(nodes: Seq<Id>) -> bool {
    nodes.len() == 0 || nodes[0] == nodes[nodes.len() - 1]
}

pub fn is_way_closed(way: &Way) -> (r: bool)
    ensures
        r == way_closed(way@.nodes),
{
    let n = way.nodes.len();
    if n == 0 {
        true
    } else {
        way.nodes[0] == way.nodes[n - 1]
    }
}

/// The store as contracts see it.
pub struct OsmDataView {
    pub nodes: Map<Id, NodeView>,
    pub ways: Map<Id, WayView>,
}

/// Every feature is filed under its own identifier, and tag keys are
/// unique.
pub open spec fn store_wf(d: OsmDataView) -> bool {
    &&& d.nodes.dom().finite()
    &&& d.ways.dom().finite()
    &&& forall|k: Id| #[trigger]
        d.nodes.contains_key(k) ==> d.nodes[k].id == k && unique_keys(d.nodes[k].tags)
    &&& forall|k: Id| #[trigger]
        d.ways.contains_key(k) ==> d.ways[k].id == k && unique_keys(d.ways[k].tags)
}

/// Every node that a way of the store lists is in the store.
pub open spec fn store_closed(d: OsmDataView) -> bool {
    forall|k: Id, i: int|
        d.ways.contains_key(k) && 0 <= i < d.ways[k].nodes.len() ==> d.nodes.contains_key(
            #[trigger] d.ways[k].nodes[i],
        )
}

/// Every node that a way of `ways` lists is in the store.
pub open spec fn ways_closed(d: OsmDataView, ways: Seq<Id>) -> bool {
    forall|a: int, i: int|
        0 <= a < ways.len() && 0 <= i < d.ways[ways[a]].nodes.len() ==> d.nodes.contains_key(
            #[trigger] d.ways[ways[a]].nodes[i],
        )
}

/// In a store that holds every node that its ways list, so does each list
/// of its ways.
pub proof fn lemma_closed_ways(d: OsmDataView, ways: Seq<Id>)
    requires
        store_closed(d),
        forall|a: int| 0 <= a < ways.len() ==> d.ways.contains_key(#[trigger] ways[a]),
    ensures
        ways_closed(d, ways),
{
    assert forall|a: int, i: int|
        0 <= a < ways.len() && 0 <= i < d.ways[ways[a]].nodes.len() implies d.nodes.contains_key(
        #[trigger] d.ways[ways[a]].nodes[i],
    ) by {
        assert(d.ways.contains_key(ways[a]));
    }
}

/// Nodes and ways by identifier. The store also remembers the order in
/// which identifiers came in, so that walking it is repeatable.
pub struct OsmData {
    nodes: HashMap<Id, Node>,
    ways: HashMap<Id, Way>,
    node_ids: Vec<Id>,
    way_ids: Vec<Id>,
}

impl View for OsmData {
    type V = OsmDataView;

    closed spec fn view(&self) -> OsmDataView {
        OsmDataView {
            nodes: Map::new(|k: Id| self.nodes@.contains_key(k), |k: Id| self.nodes@[k]@),
            ways: Map::new(|k: Id| self.ways@.contains_key(k), |k: Id| self.ways@[k]@),
        }
    }
}

impl OsmData {
    /// Node identifiers in the order in which they came in.
    pub closed spec fn node_order(&self) -> Seq<Id> {
        self.node_ids@
    }

    /// Way identifiers in the order in which they came in.
    pub closed spec fn way_order(&self) -> Seq<Id> {
        self.way_ids@
    }

    /// Every node that a way of the store lists is in the store.
    pub open spec fn closed(&self) -> bool {
        store_closed(self@)
    }

    /// The store's invariant. `new` establishes it and every method keeps it.
    pub closed spec fn wf(&self) -> bool {
        &&& store_wf(self@)
        &&& self.node_ids@.no_duplicates()
        &&& self.way_ids@.no_duplicates()
        &&& forall|k: Id| self.node_ids@.contains(k) <==> #[trigger] self.nodes@.contains_key(k)
        &&& forall|k: Id| self.way_ids@.contains(k) <==> #[trigger] self.ways@.contains_key(k)
    }

    /// What `wf` says to other modules.
    pub proof fn lemma_wf(&self)
        requires
            self.wf(),
        ensures
            store_wf(self@),
            self.node_order().no_duplicates(),
            self.way_order().no_duplicates(),
            forall|k: Id| self.node_order().contains(k) <==> #[trigger] self@.nodes.contains_key(k),
            forall|k: Id| self.way_order().contains(k) <==> #[trigger] self@.ways.contains_key(k),
    {
    }

    /// No way of the store lists more nodes than a vector holds.
    pub proof fn lemma_way_lengths(&self)
        ensures
            forall|k: Id| #[trigger]
                self@.ways.contains_key(k) ==> self@.ways[k].nodes.len() <= usize::MAX,
    {
        assert forall|k: Id| #[trigger] self@.ways.contains_key(k) implies self@.ways[k].nodes.len()
            <= usize::MAX by {
            vstd::std_specs::vec::axiom_spec_len(&self.ways@[k].nodes);
        }
    }

    /// An empty store.
    pub fn new() -> (r: Self)
        ensures
            r.wf(),
            r@.nodes == Map::<Id, NodeView>::empty(),
            r@.ways == Map::<Id, WayView>::empty(),
            r.node_order() == Seq::<Id>::empty(),
            r.way_order() == Seq::<Id>::empty(),
    {
        let r = OsmData {
            nodes: HashMap::new(),
            ways: HashMap::new(),
            node_ids: Vec::new(),
            way_ids: Vec::new(),
        };
        assert(r@.nodes =~= Map::<Id, NodeView>::empty());
        assert(r@.ways =~= Map::<Id, WayView>::empty());
        r
    }

    pub fn is_empty(&self) -> (r: bool)
        requires
            self.wf(),
        ensures
            r == (self@.nodes.dom().len() == 0 && self@.ways.dom().len() == 0),
    {
        proof {
            self.lemma_counts();
        }
        self.node_ids.len() == 0 && self.way_ids.len() == 0
    }

    proof fn lemma_counts(&self)
        requires
            self.wf(),
        ensures
            self@.nodes.dom().len() == self.node_ids@.len(),
            self@.ways.dom().len() == self.way_ids@.len(),
    {
        self.node_ids@.unique_seq_to_set();
        self.way_ids@.unique_seq_to_set();
        assert(self.node_ids@.to_set() =~= self@.nodes.dom());
        assert(self.way_ids@.to_set() =~= self@.ways.dom());
    }

    pub fn node_count(&self) -> (n: usize)
        requires
            self.wf(),
        ensures
            n == self@.nodes.dom().len(),
            n == self.node_order().len(),
    {
        proof {
            self.lemma_counts();
        }
        self.node_ids.len()
    }

    pub fn way_count(&self) -> (n: usize)
        requires
            self.wf(),
        ensures
            n == self@.ways.dom().len(),
            n == self.way_order().len(),
    {
        proof {
            self.lemma_counts();
        }
        self.way_ids.len()
    }

    /// The node identifiers in arrival order.
    pub fn node_ids(&self) -> (r: &Vec<Id>)
        ensures
            r@ == self.node_order(),
    {
        &self.node_ids
    }

    /// The way identifiers in arrival order.
    pub fn way_ids(&self) -> (r: &Vec<Id>)
        ensures
            r@ == self.way_order(),
    {
        &self.way_ids
    }

    /// The `i`-th node identifier in arrival order.
    pub fn node_id_at(&self, i: usize) -> (id: Id)
        requires
            i < self.node_order().len(),
        ensures
            id == self.node_order()[i as int],
    {
        self.node_ids[i]
    }

    /// The `i`-th way identifier in arrival order.
    pub fn way_id_at(&self, i: usize) -> (id: Id)
        requires
            i < self.way_order().len(),
        ensures
            id == self.way_order()[i as int],
    {
        self.way_ids[i]
    }

    pub fn contains_node(&self, id: Id) -> (r: bool)
        ensures
            r == self@.nodes.contains_key(id),
    {
        self.nodes.contains_key(&id)
    }

    pub fn contains_way(&self, id: Id) -> (r: bool)
        ensures
            r == self@.ways.contains_key(id),
    {
        self.ways.contains_key(&id)
    }

    /// The node filed under `id`.
    pub fn node(&self, id: Id) -> (r: Option<&Node>)
        ensures
            r.is_some() == self@.nodes.contains_key(id),
            r matches Some(n) ==> n@ == self@.nodes[id],
    {
        self.nodes.get(&id)
    }

    /// The way filed under `id`.
    pub fn way(&self, id: Id) -> (r: Option<&Way>)
        ensures
            r.is_some() == self@.ways.contains_key(id),
            r matches Some(w) ==> w@ == self@.ways[id],
    {
        self.ways.get(&id)
    }

    /// Files `node` under its identifier unless that identifier is taken or
    /// its tag keys repeat. Says whether the node went in.
    pub fn insert_node(&mut self, node: Node) -> (r: bool)
        requires
            old(self).wf(),
        ensures
            final(self).wf(),
            r == (!old(self)@.nodes.contains_key(node.id) && node.tags.wf()),
            r ==> final(self)@.nodes == old(self)@.nodes.insert(node.id, node@),
            r ==> final(self).node_order() == old(self).node_order().push(node.id),
            !r ==> final(self)@.nodes == old(self)@.nodes,
            !r ==> final(self).node_order() == old(self).node_order(),
            final(self)@.ways == old(self)@.ways,
            final(self).way_order() == old(self).way_order(),
    {
        let id = node.id;
        if self.nodes.contains_key(&id) {
            return false;
        }
        if !tags_ok(&node.tags) {
            return false;
        }
        let ghost before = *self;
        let ghost nv = node@;
        self.node_ids.push(id);
        self.nodes.insert(id, node);
        proof {
            assert(self@.nodes =~= before@.nodes.insert(id, nv));
            assert(self@.ways =~= before@.ways);
            assert forall|k: Id| self.node_ids@.contains(k) <==> #[trigger] self.nodes@.contains_key(
                k,
            ) by {
                if k == id {
                    assert(self.node_ids@[before.node_ids@.len() as int] == id);
                } else {
                    if before.node_ids@.contains(k) {
                        let j = choose|j: int|
                            0 <= j < before.node_ids@.len() && before.node_ids@[j] == k;
                        assert(self.node_ids@[j] == k);
                    }
                }
            }
        }
        true
    }

    /// Files `way` under its identifier unless that identifier is taken or
    /// its tag keys repeat. Says whether the way went in.
    pub fn insert_way(&mut self, way: Way) -> (r: bool)
        requires
            old(self).wf(),
        ensures
            final(self).wf(),
            r == (!old(self)@.ways.contains_key(way.id) && way.tags.wf()),
            r ==> final(self)@.ways == old(self)@.ways.insert(way.id, way@),
            r ==> final(self).way_order() == old(self).way_order().push(way.id),
            !r ==> final(self)@.ways == old(self)@.ways,
            !r ==> final(self).way_order() == old(self).way_order(),
            final(self)@.nodes == old(self)@.nodes,
            final(self).node_order() == old(self).node_order(),
    {
        let id = way.id;
        if self.ways.contains_key(&id) {
            return false;
        }
        if !tags_ok(&way.tags) {
            return false;
        }
        let ghost before = *self;
        let ghost wv = way@;
        self.way_ids.push(id);
        self.ways.insert(id, way);
        proof {
            assert(self@.ways =~= before@.ways.insert(id, wv));
            assert(self@.nodes =~= before@.nodes);
            assert forall|k: Id| self.way_ids@.contains(k) <==> #[trigger] self.ways@.contains_key(
                k,
            ) by {
                if k == id {
                    assert(self.way_ids@[before.way_ids@.len() as int] == id);
                } else {
                    if before.way_ids@.contains(k) {
                        let j = choose|j: int|
                            0 <= j < before.way_ids@.len() && before.way_ids@[j] == k;
                        assert(self.way_ids@[j] == k);
                    }
                }
            }
        }
        true
    }

    /// Whether every node that a way of the store lists is in the store.
    pub fn is_closed(&self) -> (r: bool)
        requires
            self.wf(),
        ensures
            r == self.closed(),
    {
        let ghost d = self@;
        let mut j: usize = 0;
        while j < self.way_ids.len()
            invariant
                j <= self.way_ids@.len(),
                self.wf(),
                d == self@,
                forall|a: int, i: int|
                    0 <= a < j && 0 <= i < d.ways[self.way_ids@[a]].nodes.len()
                        ==> d.nodes.contains_key(#[trigger] d.ways[self.way_ids@[a]].nodes[i]),
            decreases self.way_ids@.len() - j,
        {
            let id = self.way_ids[j];
            assert(self.way_ids@.contains(id));
            let way = self.ways.get(&id).unwrap();
            let mut i: usize = 0;
            while i < way.nodes.len()
                invariant
                    i <= way@.nodes.len(),
                    d == self@,
                    d.ways.contains_key(id),
                    way@ == d.ways[id],
                    forall|b: int| 0 <= b < i ==> d.nodes.contains_key(#[trigger] way@.nodes[b]),
                decreases way@.nodes.len() - i,
            {
                if !self.nodes.contains_key(&way.nodes[i]) {
                    assert(!d.nodes.contains_key(d.ways[id].nodes[i as int]));
                    return false;
                }
                i = i + 1;
            }
            j = j + 1;
        }
        proof {
            assert forall|k: Id, i: int|
                d.ways.contains_key(k) && 0 <= i < d.ways[k].nodes.len() implies d.nodes.contains_key(
                #[trigger] d.ways[k].nodes[i],
            ) by {
                assert(self.way_ids@.contains(k));
                let a = choose|a: int| 0 <= a < self.way_ids@.len() && self.way_ids@[a] == k;
                assert(d.nodes.contains_key(d.ways[self.way_ids@[a]].nodes[i]));
            }
        }
        true
    }

    /// Whether every node that `way` lists is in this store or in `batch`.
    fn lists_known(&self, batch: &OsmData, way: &Way) -> (r: bool)
        ensures
            r == forall|i: int|
                0 <= i < way@.nodes.len() ==> merge_store(self@, batch@).nodes.contains_key(
                    #[trigger] way@.nodes[i],
                ),
    {
        let ghost m = merge_store(self@, batch@);
        let mut i: usize = 0;
        while i < way.nodes.len()
            invariant
                i <= way@.nodes.len(),
                m == merge_store(self@, batch@),
                forall|b: int| 0 <= b < i ==> m.nodes.contains_key(#[trigger] way@.nodes[b]),
            decreases way@.nodes.len() - i,
        {
            let n = way.nodes[i];
            if !self.contains_node(n) && !batch.contains_node(n) {
                assert(!m.nodes.contains_key(way@.nodes[i as int]));
                return false;
            }
            i = i + 1;
        }
        true
    }

    /// Whether the store that this one becomes by taking in `batch` holds
    /// every node that its ways list: the test to make before a batch is
    /// merged into a store that has to stay closed.
    pub fn closed_with(&self, batch: &OsmData) -> (r: bool)
        requires
            self.wf(),
            batch.wf(),
        ensures
            r == store_closed(merge_store(self@, batch@)),
    {
        let ghost m = merge_store(self@, batch@);
        let mut j: usize = 0;
        while j < self.way_ids.len()
            invariant
                j <= self.way_ids@.len(),
                self.wf(),
                m == merge_store(self@, batch@),
                forall|a: int, i: int|
                    0 <= a < j && 0 <= i < m.ways[self.way_ids@[a]].nodes.len()
                        ==> m.nodes.contains_key(#[trigger] m.ways[self.way_ids@[a]].nodes[i]),
            decreases self.way_ids@.len() - j,
        {
            let id = self.way_ids[j];
            assert(self.way_ids@.contains(id));
            let way = self.ways.get(&id).unwrap();
            assert(m.ways.contains_key(id) && m.ways[id] == way@);
            if !self.lists_known(batch, way) {
                return false;
            }
            j = j + 1;
        }
        let mut k: usize = 0;
        while k < batch.way_ids.len()
            invariant
                k <= batch.way_ids@.len(),
                self.wf(),
                batch.wf(),
                m == merge_store(self@, batch@),
                forall|a: int, i: int|
                    0 <= a < self.way_ids@.len() && 0 <= i < m.ways[self.way_ids@[a]].nodes.len()
                        ==> m.nodes.contains_key(#[trigger] m.ways[self.way_ids@[a]].nodes[i]),
                forall|a: int, i: int|
                    0 <= a < k && 0 <= i < m.ways[batch.way_ids@[a]].nodes.len()
                        ==> m.nodes.contains_key(#[trigger] m.ways[batch.way_ids@[a]].nodes[i]),
            decreases batch.way_ids@.len() - k,
        {
            let id = batch.way_ids[k];
            assert(batch.way_ids@.contains(id));
            if self.ways.contains_key(&id) {
                proof {
                    assert(self.way_ids@.contains(id));
                    let a = choose|a: int| 0 <= a < self.way_ids@.len() && self.way_ids@[a] == id;
                    assert(forall|i: int|
                        0 <= i < m.ways[self.way_ids@[a]].nodes.len() ==> m.nodes.contains_key(
                            #[trigger] m.ways[self.way_ids@[a]].nodes[i],
                        ));
                }
            } else {
                let way = batch.ways.get(&id).unwrap();
                assert(m.ways.contains_key(id) && m.ways[id] == way@);
                if !self.lists_known(batch, way) {
                    return false;
                }
            }
            k = k + 1;
        }
        proof {
            assert forall|w: Id, i: int|
                m.ways.contains_key(w) && 0 <= i < m.ways[w].nodes.len() implies m.nodes.contains_key(
                #[trigger] m.ways[w].nodes[i],
            ) by {
                if self@.ways.contains_key(w) {
                    assert(self.way_ids@.contains(w));
                    let a = choose|a: int| 0 <= a < self.way_ids@.len() && self.way_ids@[a] == w;
                    assert(m.nodes.contains_key(m.ways[self.way_ids@[a]].nodes[i]));
                } else {
                    assert(batch@.ways.contains_key(w));
                    assert(batch.way_ids@.contains(w));
                    let a = choose|a: int| 0 <= a < batch.way_ids@.len() && batch.way_ids@[a] == w;
                    assert(m.nodes.contains_key(m.ways[batch.way_ids@[a]].nodes[i]));
                }
            }
        }
        true
    }

    /// Puts `way` in the place of the way filed under its identifier, or files
    /// it where that identifier is new.
    pub fn replace_way(&mut self, way: Way)
        requires
            old(self).wf(),
            way.tags.wf(),
        ensures
            final(self).wf(),
            final(self)@.ways == old(self)@.ways.insert(way.id, way@),
            final(self)@.nodes == old(self)@.nodes,
            final(self).node_order() == old(self).node_order(),
            final(self).way_order() == if old(self)@.ways.contains_key(way.id) {
                old(self).way_order()
            } else {
                old(self).way_order().push(way.id)
            },
    {
        let id = way.id;
        let ghost before = *self;
        let ghost wv = way@;
        let known = self.ways.contains_key(&id);
        if !known {
            self.way_ids.push(id);
        }
        self.ways.insert(id, way);
        proof {
            assert(self@.ways =~= before@.ways.insert(id, wv));
            assert(self@.nodes =~= before@.nodes);
            assert forall|k: Id| self.way_ids@.contains(k) <==> #[trigger] self.ways@.contains_key(
                k,
            ) by {
                if before.way_ids@.contains(k) {
                    let j = choose|j: int|
                        0 <= j < before.way_ids@.len() && before.way_ids@[j] == k;
                    assert(self.way_ids@[j] == k);
                }
                if k == id && !known {
                    assert(self.way_ids@[before.way_ids@.len() as int] == id);
                }
            }
        }
    }
}

/// The store that holds the features of `first` and, of the features of
/// `second`, those whose identifier `first` does not have.
pub open spec fn merge_store(first: OsmDataView, second: OsmDataView) -> OsmDataView {
    OsmDataView {
        nodes: second.nodes.union_prefer_right(first.nodes),
        ways: second.ways.union_prefer_right(first.ways),
    }
}

/// Merging keeps a store well-formed.
pub proof fn lemma_merge_wf(first: OsmDataView, second: OsmDataView)
    requires
        store_wf(first),
        store_wf(second),
    ensures
        store_wf(merge_store(first, second)),
{
    let m = merge_store(first, second);
    assert(m.nodes.dom() =~= first.nodes.dom().union(second.nodes.dom()));
    assert(m.ways.dom() =~= first.ways.dom().union(second.ways.dom()));
}

/// Where two stores each hold every node that their ways list, so does
/// the store that they merge into.
pub proof fn lemma_merge_closed(first: OsmDataView, second: OsmDataView)
    requires
        store_closed(first),
        store_closed(second),
    ensures
        store_closed(merge_store(first, second)),
{
    let m = merge_store(first, second);
    assert forall|k: Id, i: int|
        m.ways.contains_key(k) && 0 <= i < m.ways[k].nodes.len() implies m.nodes.contains_key(
        #[trigger] m.ways[k].nodes[i],
    ) by {
        if first.ways.contains_key(k) {
            assert(first.nodes.contains_key(first.ways[k].nodes[i]));
        } else {
            assert(second.nodes.contains_key(second.ways[k].nodes[i]));
        }
    }
}

impl OsmData {
    /// Takes in the features of `from` whose identifier the store does not
    /// have yet; a feature that the store has stays as it is.
    pub fn merge(&mut self, from: OsmData)
        requires
            old(self).wf(),
            from.wf(),
        ensures
            final(self).wf(),
            final(self)@ == merge_store(old(self)@, from@),
            final(self).node_order() == old(self).node_order() + from.node_order().filter(
                |k: Id| !old(self)@.nodes.contains_key(k),
            ),
            final(self).way_order() == old(self).way_order() + from.way_order().filter(
                |k: Id| !old(self)@.ways.contains_key(k),
            ),
    {
        let mut from = from;
        let ghost first = self@;
        let ghost second = from@;
        let ghost first_nodes = self.node_order();
        let ghost first_ways = self.way_order();
        let ghost ids = from.node_ids@;
        let ghost wids = from.way_ids@;
        let ghost fresh_node = |k: Id| !first.nodes.contains_key(k);
        let ghost fresh_way = |k: Id| !first.ways.contains_key(k);
        let ghost from_ways = from.ways@;
        proof {
            lemma_merge_wf(first, second);
            reveal(Seq::filter);
            assert(ids.take(0).filter(fresh_node) =~= Seq::<Id>::empty());
            assert(wids.take(0).filter(fresh_way) =~= Seq::<Id>::empty());
            assert forall|k: Id| ids.contains(k) <==> second.nodes.contains_key(k) by {
                assert(from.nodes@.contains_key(k) <==> second.nodes.contains_key(k));
            }
            assert forall|k: Id| wids.contains(k) <==> second.ways.contains_key(k) by {
                assert(from.ways@.contains_key(k) <==> second.ways.contains_key(k));
            }
            assert forall|j: int| 0 <= j < ids.len() implies from.nodes@.contains_key(
                #[trigger] ids[j],
            ) && from.nodes@[ids[j]]@ == second.nodes[ids[j]] && second.nodes.contains_key(
                ids[j],
            ) by {
                assert(ids.contains(ids[j]));
            }
            assert forall|a: int| 0 <= a < wids.len() implies from_ways.contains_key(
                #[trigger] wids[a],
            ) && from_ways[wids[a]]@ == second.ways[wids[a]] && second.ways.contains_key(
                wids[a],
            ) by {
                assert(wids.contains(wids[a]));
            }
        }
        let n = from.node_ids.len();
        let mut i: usize = 0;
        while i < n
            invariant
                i <= n,
                n == ids.len(),
                ids == from.node_ids@,
                wids == from.way_ids@,
                from.ways@ == from_ways,
                ids.no_duplicates(),
                wids.no_duplicates(),
                self.wf(),
                store_wf(second),
                forall|k: Id| ids.contains(k) <==> second.nodes.contains_key(k),
                fresh_node == |k: Id| !first.nodes.contains_key(k),
                self@.ways == first.ways,
                self.way_ids@ == first_ways,
                forall|j: int|
                    i <= j < n ==> from.nodes@.contains_key(#[trigger] ids[j]) && from.nodes@[ids[j]]@
                        == second.nodes[ids[j]] && second.nodes.contains_key(ids[j]),
                forall|k: Id|
                    self@.nodes.contains_key(k) <==> first.nodes.contains_key(k) || ids.take(
                        i as int,
                    ).contains(k),
                forall|k: Id| #[trigger]
                    self@.nodes.contains_key(k) ==> self@.nodes[k] == if first.nodes.contains_key(
                        k,
                    ) {
                        first.nodes[k]
                    } else {
                        second.nodes[k]
                    },
                self.node_ids@ == first_nodes + ids.take(i as int).filter(fresh_node),
            decreases n - i,
        {
            let id = from.node_ids[i];
            let ghost t0 = ids.take(i as int);
            let ghost t1 = ids.take(i + 1);
            let ghost before = self@.nodes;
            let node = from.nodes.remove(&id).unwrap();
            assert(node@ == second.nodes[id]);
            assert(node.id == id && node.tags.wf());
            let added = self.insert_node(node);
            proof {
                assert(t1 =~= t0.push(id));
                t0.lemma_filter_push(id, fresh_node);
                assert(added ==> fresh_node(id)) by {
                    if !fresh_node(id) {
                        assert(before.contains_key(id));
                    }
                }
                assert(fresh_node(id) ==> added) by {
                    if fresh_node(id) && before.contains_key(id) {
                        assert(t0.contains(id));
                        let j = choose|j: int| 0 <= j < t0.len() && t0[j] == id;
                        assert(ids[j] == id && ids[i as int] == id);
                    }
                }
                assert forall|k: Id|
                    self@.nodes.contains_key(k) <==> first.nodes.contains_key(k) || t1.contains(
                        k,
                    ) by {
                    assert(before.contains_key(k) <==> first.nodes.contains_key(k) || t0.contains(
                        k,
                    ));
                    if k == id {
                        assert(t1[i as int] == id);
                        assert(t1.contains(k));
                        assert(self@.nodes.contains_key(k));
                    } else {
                        assert(self@.nodes.contains_key(k) == before.contains_key(k));
                        if t1.contains(k) {
                            let j = choose|j: int| 0 <= j < t1.len() && t1[j] == k;
                            assert(t0[j] == k);
                            assert(t0.contains(k));
                        }
                        if t0.contains(k) {
                            let j = choose|j: int| 0 <= j < t0.len() && t0[j] == k;
                            assert(t1[j] == k);
                            assert(t1.contains(k));
                        }
                    }
                }
                assert forall|j: int| i + 1 <= j < n implies from.nodes@.contains_key(
                    #[trigger] ids[j],
                ) && from.nodes@[ids[j]]@ == second.nodes[ids[j]] && second.nodes.contains_key(
                    ids[j],
                ) by {
                    assert(ids[j] != ids[i as int]);
                }
            }
            i = i + 1;
        }
        assert(ids.take(n as int) =~= ids);
        proof {
            assert(self@.nodes =~= merge_store(first, second).nodes);
        }
        let ghost merged_nodes = self@.nodes;
        let m = from.way_ids.len();
        let mut j: usize = 0;
        while j < m
            invariant
                j <= m,
                m == wids.len(),
                wids == from.way_ids@,
                wids.no_duplicates(),
                self.wf(),
                store_wf(second),
                forall|k: Id| wids.contains(k) <==> second.ways.contains_key(k),
                fresh_way == |k: Id| !first.ways.contains_key(k),
                self@.nodes == merged_nodes,
                merged_nodes == merge_store(first, second).nodes,
                self.node_ids@ == first_nodes + ids.filter(fresh_node),
                forall|a: int|
                    j <= a < m ==> from.ways@.contains_key(#[trigger] wids[a]) && from.ways@[wids[a]]@
                        == second.ways[wids[a]] && second.ways.contains_key(wids[a]),
                forall|k: Id|
                    self@.ways.contains_key(k) <==> first.ways.contains_key(k) || wids.take(
                        j as int,
                    ).contains(k),
                forall|k: Id| #[trigger]
                    self@.ways.contains_key(k) ==> self@.ways[k] == if first.ways.contains_key(k) {
                        first.ways[k]
                    } else {
                        second.ways[k]
                    },
                self.way_ids@ == first_ways + wids.take(j as int).filter(fresh_way),
            decreases m - j,
        {
            let id = from.way_ids[j];
            let ghost t0 = wids.take(j as int);
            let ghost t1 = wids.take(j + 1);
            let ghost before = self@.ways;
            let way = from.ways.remove(&id).unwrap();
            assert(way@ == second.ways[id]);
            assert(way.id == id && way.tags.wf());
            let added = self.insert_way(way);
            proof {
                assert(t1 =~= t0.push(id));
                t0.lemma_filter_push(id, fresh_way);
                assert(added ==> fresh_way(id)) by {
                    if !fresh_way(id) {
                        assert(before.contains_key(id));
                    }
                }
                assert(fresh_way(id) ==> added) by {
                    if fresh_way(id) && before.contains_key(id) {
                        assert(t0.contains(id));
                        let a = choose|a: int| 0 <= a < t0.len() && t0[a] == id;
                        assert(wids[a] == id && wids[j as int] == id);
                    }
                }
                assert forall|k: Id|
                    self@.ways.contains_key(k) <==> first.ways.contains_key(k) || t1.contains(
                        k,
                    ) by {
                    assert(before.contains_key(k) <==> first.ways.contains_key(k) || t0.contains(
                        k,
                    ));
                    if k == id {
                        assert(t1[j as int] == id);
                        assert(t1.contains(k));
                        assert(self@.ways.contains_key(k));
                    } else {
                        assert(self@.ways.contains_key(k) == before.contains_key(k));
                        if t1.contains(k) {
                            let a = choose|a: int| 0 <= a < t1.len() && t1[a] == k;
                            assert(t0[a] == k);
                            assert(t0.contains(k));
                        }
                        if t0.contains(k) {
                            let a = choose|a: int| 0 <= a < t0.len() && t0[a] == k;
                            assert(t1[a] == k);
                            assert(t1.contains(k));
                        }
                    }
                }
                assert forall|a: int| j + 1 <= a < m implies from.ways@.contains_key(
                    #[trigger] wids[a],
                ) && from.ways@[wids[a]]@ == second.ways[wids[a]] && second.ways.contains_key(
                    wids[a],
                ) by {
                    assert(wids[a] != wids[j as int]);
                }
            }
            j = j + 1;
        }
        assert(wids.take(m as int) =~= wids);
        proof {
            assert(self@.ways =~= merge_store(first, second).ways);
        }
    }
}

/// Whether no key occurs twice in `tags`.
pub fn tags_ok(tags: &Tags) -> (r: bool)
    ensures
        r == tags.wf(),
{
    let n = tags.len();
    let mut i: usize = 0;
    while i < n
        invariant
            i <= n,
            n == tags@.len(),
            forall|a: int, b: int| 0 <= a < b < tags@.len() && b < i ==> (#[trigger] tags@[a]).0 != (
            #[trigger] tags@[b]).0,
        decreases n - i,
    {
        let mut j: usize = 0;
        while j < i
            invariant
                j <= i,
                i < n,
                n == tags@.len(),
                forall|a: int| 0 <= a < j ==> (#[trigger] tags@[a]).0 != tags@[i as int].0,
            decreases i - j,
        {
            if crate::tags::str_eq(tags.key_at(j).as_str(), tags.key_at(i).as_str()) {
                return false;
            }
            j = j + 1;
        }
        i = i + 1;
    }
    true
}

} // verus!
