//! The edits of a session in the form in which they are uploaded.

use crate::cache::{Change, ChangeView};
use crate::data::WayView;
use crate::tags::{TagSeq, Tags};
use vstd::prelude::*;
use vstd::string::StringExecFns;

verus! {

/// Identifier of a feature in an upload.
pub type Id = i64;

/// A key and its value.
#[derive(Debug)]
pub struct Tag {
    pub k: String,
    pub v: String,
}

impl View for Tag {
    type V = (Seq<char>, Seq<char>);

    open spec fn view(&self) -> (Seq<char>, Seq<char>) {
        (self.k@, self.v@)
    }
}

impl Default for Tag {
    fn default() -> (r: Self)
        ensures
            r@ == (Seq::<char>::empty(), Seq::<char>::empty()),
    {
        Tag { k: String::new(), v: String::new() }
    }
}

impl Tag {
    /// The tag with the key and the value of the pair.
    pub fn from(value: (&String, &String)) -> (r: Self)
        ensures
            r@ == (value.0@, value.1@),
    {
        Tag { k: value.0.clone(), v: value.1.clone() }
    }
}

/// The tags of a feature as a list of `Tag`.
pub open spec fn tag_views(tags: Seq<Tag>) -> TagSeq {
    tags.map_values(|t: Tag| t@)
}

/// A node in an upload.
#[derive(Debug)]
pub struct Node {
    pub id: Id,
    pub changeset: u64,
    pub version: u32,
    pub tags: Vec<Tag>,
}

/// A way in an upload.
#[derive(Debug)]
pub struct Way {
    pub id: Id,
    pub changeset: u64,
    pub version: u32,
    pub tags: Vec<Tag>,
}

/// What an upload `Way` holds, as contracts see it.
pub struct UploadWayView {
    pub id: Id,
    pub changeset: u64,
    pub version: u32,
    pub tags: TagSeq,
}

impl View for Way {
    type V = UploadWayView;

    open spec fn view(&self) -> UploadWayView {
        UploadWayView {
            id: self.id,
            changeset: self.changeset,
            version: self.version,
            tags: tag_views(self.tags@),
        }
    }
}

/// The upload form of a way of the store.
pub open spec fn upload_way(w: WayView) -> UploadWayView {
    UploadWayView { id: w.id as i64, changeset: w.changeset, version: w.version, tags: w.tags }
}

/// The tags of `tags` as a list of `Tag`, in order.
pub fn tag_list(tags: &Tags) -> (r: Vec<Tag>)
    ensures
        tag_views(r@) == tags@,
{
    let mut r: Vec<Tag> = Vec::new();
    let n = tags.len();
    let mut i: usize = 0;
    while i < n
        invariant
            i <= n,
            n == tags@.len(),
            tag_views(r@) == tags@.take(i as int),
        decreases n - i,
    {
        let tag = Tag::from((tags.key_at(i), tags.value_at(i)));
        let ghost before = r@;
        assert(tag@.0 == tags@[i as int].0 && tag@.1 == tags@[i as int].1);
        assert(tag@ == tags@[i as int]);
        r.push(tag);
        assert(r@ =~= before.push(tag));
        assert(tag_views(r@) =~= tag_views(before).push(tag@));
        assert(tags@.take(i + 1) =~= tags@.take(i as int).push(tags@[i as int]));
        i = i + 1;
    }
    assert(tags@.take(n as int) =~= tags@);
    r
}

impl Way {
    /// The upload form of `value`.
    pub fn from(value: &crate::data::Way) -> (r: Self)
        requires
            value.id <= i64::MAX,
        ensures
            r@ == upload_way(value@),
    {
        Way {
            id: value.id as i64,
            changeset: value.changeset,
            version: value.version,
            tags: tag_list(&value.tags),
        }
    }
}

/// A reference to a node.
#[derive(Debug)]
pub struct Nd {
    pub node: Id,
}

impl Default for Nd {
    fn default() -> (r: Self)
        ensures
            r.node == 0,
    {
        Nd { node: 0 }
    }
}

/// The features that an upload changes.
#[derive(Debug)]
pub struct Modify {
    pub node: Vec<Node>,
    pub way: Vec<Way>,
}

impl Default for Modify {
    fn default() -> (r: Self)
        ensures
            r.node@.len() == 0,
            r.way@.len() == 0,
    {
        Modify { node: Vec::new(), way: Vec::new() }
    }
}

impl Modify {
    pub fn is_empty(&self) -> (r: bool)
        ensures
            r == (self.node@.len() == 0 && self.way@.len() == 0),
    {
        self.node.is_empty() && self.way.is_empty()
    }
}

/// An upload.
#[derive(Debug)]
pub struct OsmChange {
    pub generator: String,
    pub modify: Option<Modify>,
}

impl Default for OsmChange {
    fn default() -> (r: Self)
        ensures
            r.generator@ == Seq::<char>::empty(),
            r.modify.is_none(),
    {
        OsmChange { generator: String::new(), modify: None }
    }
}

/// Position of the last edit of `log` that is about way `id`, or -1.
pub open spec fn last_edit_of(log: Seq<ChangeView>, id: crate::data::Id) -> int
    decreases log.len(),
{
    if log.len() == 0 {
        -1
    } else if log.last().way().id == id {
        log.len() - 1
    } else {
        last_edit_of(log.drop_last(), id)
    }
}

/// Edit `i` of `log` is the first that is about its way.
pub open spec fn first_about(log: Seq<ChangeView>, i: int) -> bool {
    forall|j: int| 0 <= j < i ==> (#[trigger] log[j]).way().id != log[i].way().id
}

/// The ways that `log` changes: one for each way that an edit is about,
/// in the order in which the ways first occur in `log`, each as its last
/// edit leaves it.
pub open spec fn modified_ways(log: Seq<ChangeView>) -> Seq<UploadWayView> {
    Seq::new(log.len(), |i: int| i).filter(|i: int| first_about(log, i)).map_values(
        |i: int| upload_way(log[last_edit_of(log, log[i].way().id)].way()),
    )
}

/// `last_edit_of` is the last position whose edit is about the way.
pub proof fn lemma_last_edit_of(log: Seq<ChangeView>, id: crate::data::Id)
    ensures
        -1 <= last_edit_of(log, id) < log.len(),
        last_edit_of(log, id) >= 0 ==> log[last_edit_of(log, id)].way().id == id,
        forall|j: int| last_edit_of(log, id) < j < log.len() ==> (#[trigger] log[j]).way().id != id,
    decreases log.len(),
{
    if log.len() > 0 && log.last().way().id != id {
        let t = log.drop_last();
        lemma_last_edit_of(t, id);
        assert forall|j: int| last_edit_of(log, id) < j < log.len() implies (#[trigger] log[j]).way().id
            != id by {
            if j < t.len() {
                assert(t[j] == log[j]);
            }
        }
    }
}

impl OsmChange {
    /// The upload of the edits `changes`, with `generator` as the name of
    /// the program that made it. A way that several edits are about is in it
    /// once, as the last of them leaves it.
    pub fn from(changes: &Vec<Change>, generator: &str) -> (r: Self)
        requires
            forall|i: int| 0 <= i < changes@.len() ==> (#[trigger] changes@[i])@.way().id <= i64::MAX,
        ensures
            r.generator@ == generator@,
            ({
                let ways = modified_ways(changes@.map_values(|c: Change| c@));
                if ways.len() == 0 {
                    r.modify.is_none()
                } else {
                    r.modify matches Some(m) && m.node@.len() == 0 && m.way@.map_values(
                        |w: Way| w@,
                    ) == ways
                }
            }),
    {
        let ghost log = changes@.map_values(|c: Change| c@);
        let ghost indices = Seq::new(log.len(), |i: int| i);
        let ghost first = |i: int| first_about(log, i);
        let ghost make = |i: int| upload_way(log[last_edit_of(log, log[i].way().id)].way());
        let mut modify = Modify::default();
        let n = changes.len();
        let mut i: usize = 0;
        proof {
            reveal(Seq::filter);
            assert(indices.take(0).filter(first) =~= Seq::<int>::empty());
        }
        while i < n
            invariant
                i <= n,
                n == changes@.len(),
                log == changes@.map_values(|c: Change| c@),
                indices == Seq::new(log.len(), |i: int| i),
                first == |i: int| first_about(log, i),
                make == |i: int| upload_way(log[last_edit_of(log, log[i].way().id)].way()),
                forall|a: int| 0 <= a < n ==> (#[trigger] changes@[a])@.way().id <= i64::MAX,
                modify.node@.len() == 0,
                modify.way@.map_values(|w: Way| w@) == indices.take(i as int).filter(
                    first,
                ).map_values(make),
            decreases n - i,
        {
            let id = match &changes[i] {
                Change::UpdateWay(_, way) => way.id,
            };
            // whether an earlier edit is about the same way
            let mut seen = false;
            let mut j: usize = 0;
            while j < i
                invariant
                    j <= i,
                    i < n,
                    n == changes@.len(),
                    log == changes@.map_values(|c: Change| c@),
                    id == log[i as int].way().id,
                    seen == exists|a: int| 0 <= a < j && (#[trigger] log[a]).way().id == id,
                decreases i - j,
            {
                let other = match &changes[j] {
                    Change::UpdateWay(_, way) => way.id,
                };
                if other == id {
                    seen = true;
                    assert(log[j as int].way().id == id);
                }
                j = j + 1;
            }
            // the last edit that is about the same way
            let mut last: usize = i;
            let mut k: usize = i + 1;
            while k < n
                invariant
                    i < k <= n,
                    i <= last < k,
                    n == changes@.len(),
                    log == changes@.map_values(|c: Change| c@),
                    id == log[i as int].way().id,
                    log[last as int].way().id == id,
                    forall|a: int| last < a < k ==> (#[trigger] log[a]).way().id != id,
                decreases n - k,
            {
                let other = match &changes[k] {
                    Change::UpdateWay(_, way) => way.id,
                };
                if other == id {
                    last = k;
                }
                k = k + 1;
            }
            proof {
                lemma_last_edit_of(log, id);
                let l = last_edit_of(log, id);
                if l < last {
                    assert(log[last as int].way().id != id);
                }
                if l > last {
                    assert(log[l].way().id != id);
                }
                assert(l == last);
                assert(indices.take(i + 1) =~= indices.take(i as int).push(i as int));
                indices.take(i as int).lemma_filter_push(i as int, first);
                assert(first(i as int) == !seen);
                if !seen {
                    indices.take(i as int).filter(first).lemma_push_map_commute(make, i as int);
                }
            }
            if !seen {
                let ghost before = modify.way@.map_values(|w: Way| w@);
                match &changes[last] {
                    Change::UpdateWay(_, way) => {
                        assert(changes@[last as int]@.way() == way@);
                        modify.way.push(Way::from(way));
                    },
                }
                assert(modify.way@.map_values(|w: Way| w@) =~= before.push(make(i as int)));
            }
            i = i + 1;
        }
        assert(indices.take(n as int) =~= indices);
        let generator = String::from_str(generator);
        if modify.is_empty() {
            OsmChange { generator, modify: None }
        } else {
            OsmChange { generator, modify: Some(modify) }
        }
    }

    /// Makes the upload ready for changeset `changeset_id`: every node and
    /// every way gets the changeset, and the version of every node rises by
    /// one.
    pub fn prepare_upload(&mut self, changeset_id: u64)
        requires
            old(self).modify matches Some(m) ==> forall|i: int|
                0 <= i < m.node@.len() ==> (#[trigger] m.node@[i]).version < u32::MAX,
        ensures
            final(self).generator == old(self).generator,
            final(self).modify.is_some() == old(self).modify.is_some(),
            old(self).modify matches Some(before) ==> final(self).modify matches Some(after) && {
                &&& after.node@.len() == before.node@.len()
                &&& after.way@.len() == before.way@.len()
                &&& forall|i: int|
                    0 <= i < after.node@.len() ==> {
                        &&& (#[trigger] after.node@[i]).id == before.node@[i].id
                        &&& after.node@[i].changeset == changeset_id
                        &&& after.node@[i].version == before.node@[i].version + 1
                        &&& after.node@[i].tags == before.node@[i].tags
                    }
                &&& forall|i: int|
                    0 <= i < after.way@.len() ==> {
                        &&& (#[trigger] after.way@[i]).id == before.way@[i].id
                        &&& after.way@[i].changeset == changeset_id
                        &&& after.way@[i].version == before.way@[i].version
                        &&& after.way@[i].tags == before.way@[i].tags
                    }
            },
    {
        let taken = self.modify.take();
        match taken {
            Some(modify) => {
                let ghost before = modify;
                let Modify { node, way } = modify;
                let mut nodes: Vec<Node> = Vec::new();
                let mut node = node;
                let mut i: usize = 0;
                let n = node.len();
                // nodes are taken from the back and put back in order
                while node.len() > 0
                    invariant
                        node@.len() + nodes@.len() == before.node@.len(),
                        node@ == before.node@.take(node@.len() as int),
                        forall|a: int|
                            0 <= a < before.node@.len() ==> (#[trigger] before.node@[a]).version
                                < u32::MAX,
                        forall|a: int|
                            0 <= a < nodes@.len() ==> {
                                let b = before.node@[before.node@.len() - 1 - a];
                                &&& (#[trigger] nodes@[a]).id == b.id
                                &&& nodes@[a].changeset == changeset_id
                                &&& nodes@[a].version == b.version + 1
                                &&& nodes@[a].tags == b.tags
                            },
                    decreases node@.len(),
                {
                    let ghost len = node@.len();
                    let x = node.pop().unwrap();
                    assert(x == before.node@[len - 1]);
                    nodes.push(
                        Node {
                            id: x.id,
                            changeset: changeset_id,
                            version: x.version + 1,
                            tags: x.tags,
                        },
                    );
                    assert(node@ =~= before.node@.take(node@.len() as int));
                }
                let mut ordered: Vec<Node> = Vec::new();
                while nodes.len() > 0
                    invariant
                        nodes@.len() + ordered@.len() == before.node@.len(),
                        forall|a: int|
                            0 <= a < nodes@.len() ==> {
                                let b = before.node@[before.node@.len() - 1 - a];
                                &&& (#[trigger] nodes@[a]).id == b.id
                                &&& nodes@[a].changeset == changeset_id
                                &&& nodes@[a].version == b.version + 1
                                &&& nodes@[a].tags == b.tags
                            },
                        forall|a: int|
                            0 <= a < ordered@.len() ==> {
                                let b = before.node@[a];
                                &&& (#[trigger] ordered@[a]).id == b.id
                                &&& ordered@[a].changeset == changeset_id
                                &&& ordered@[a].version == b.version + 1
                                &&& ordered@[a].tags == b.tags
                            },
                    decreases nodes@.len(),
                {
                    let x = nodes.pop().unwrap();
                    ordered.push(x);
                }
                let mut ways_back: Vec<Way> = Vec::new();
                let mut way = way;
                while way.len() > 0
                    invariant
                        way@.len() + ways_back@.len() == before.way@.len(),
                        way@ == before.way@.take(way@.len() as int),
                        forall|a: int|
                            0 <= a < ways_back@.len() ==> {
                                let b = before.way@[before.way@.len() - 1 - a];
                                &&& (#[trigger] ways_back@[a]).id == b.id
                                &&& ways_back@[a].changeset == changeset_id
                                &&& ways_back@[a].version == b.version
                                &&& ways_back@[a].tags == b.tags
                            },
                    decreases way@.len(),
                {
                    let ghost len = way@.len();
                    let x = way.pop().unwrap();
                    assert(x == before.way@[len - 1]);
                    ways_back.push(
                        Way { id: x.id, changeset: changeset_id, version: x.version, tags: x.tags },
                    );
                    assert(way@ =~= before.way@.take(way@.len() as int));
                }
                let mut ways: Vec<Way> = Vec::new();
                while ways_back.len() > 0
                    invariant
                        ways_back@.len() + ways@.len() == before.way@.len(),
                        forall|a: int|
                            0 <= a < ways_back@.len() ==> {
                                let b = before.way@[before.way@.len() - 1 - a];
                                &&& (#[trigger] ways_back@[a]).id == b.id
                                &&& ways_back@[a].changeset == changeset_id
                                &&& ways_back@[a].version == b.version
                                &&& ways_back@[a].tags == b.tags
                            },
                        forall|a: int|
                            0 <= a < ways@.len() ==> {
                                let b = before.way@[a];
                                &&& (#[trigger] ways@[a]).id == b.id
                                &&& ways@[a].changeset == changeset_id
                                &&& ways@[a].version == b.version
                                &&& ways@[a].tags == b.tags
                            },
                    decreases ways_back@.len(),
                {
                    let x = ways_back.pop().unwrap();
                    ways.push(x);
                }
                self.modify = Some(Modify { node: ordered, way: ways });
            },
            None => {},
        }
    }
}

} // verus!
