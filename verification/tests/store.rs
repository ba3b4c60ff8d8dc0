use walkers_editor::cache::EditorOsmData;
use walkers_editor::data::{clone_ids, is_way_closed, tags_ok, Coordinate, Node, OsmData, Way};
use walkers_editor::states::CacheFlag;
use walkers_editor::tags::Tags;

fn node(id: u64, lat: i32, lon: i32) -> Node {
    Node { id, pos: Coordinate::new(lat, lon), tags: Tags::new(), changeset: 1, version: 1 }
}

fn named_node(id: u64, name: &str) -> Node {
    let mut t = Tags::new();
    t.insert("name".to_string(), name.to_string());
    Node { id, pos: Coordinate::new(0, 0), tags: t, changeset: 1, version: 1 }
}

fn way(id: u64, nodes: &[u64], tags: &[(&str, &str)]) -> Way {
    let mut t = Tags::new();
    for (k, v) in tags {
        t.insert(k.to_string(), v.to_string());
    }
    Way { id, nodes: nodes.to_vec(), tags: t, changeset: 1, version: 1 }
}

fn batch(nodes: &[(u64, &str)]) -> OsmData {
    let mut d = OsmData::new();
    for (id, name) in nodes {
        assert!(d.insert_node(named_node(*id, name)));
    }
    d
}

fn name_of(d: &OsmData, id: u64) -> Option<String> {
    d.node(id).and_then(|n| n.tags.get("name").cloned())
}

fn names(d: &OsmData) -> Vec<(u64, String)> {
    let mut v: Vec<(u64, String)> =
        d.node_ids().iter().map(|id| (*id, name_of(d, *id).unwrap())).collect();
    v.sort();
    v
}

#[test]
fn new_store_is_empty() {
    let d = OsmData::new();
    assert!(d.is_empty());
    assert_eq!(d.node_count(), 0);
    assert_eq!(d.way_count(), 0);
    assert!(d.node(1).is_none());
    assert!(d.way(1).is_none());
    assert!(!d.contains_node(1));
    assert!(!d.contains_way(1));
}

#[test]
fn insert_node_is_first_wins() {
    let mut d = OsmData::new();
    assert!(d.insert_node(named_node(7, "first")));
    assert!(!d.insert_node(named_node(7, "second")));
    assert_eq!(d.node_count(), 1);
    assert_eq!(name_of(&d, 7).as_deref(), Some("first"));
    assert!(!d.is_empty());
    assert_eq!(d.node_id_at(0), 7);
}

#[test]
fn insert_way_is_first_wins() {
    let mut d = OsmData::new();
    assert!(d.insert_node(node(1, 0, 0)));
    assert!(d.insert_node(node(2, 0, 1)));
    assert!(d.insert_way(way(10, &[1, 2], &[])));
    assert!(!d.insert_way(way(10, &[2, 1], &[])));
    assert_eq!(d.way(10).unwrap().nodes, vec![1, 2]);
    assert_eq!(d.way_id_at(0), 10);
    assert!(d.insert_way(way(11, &[], &[])));
    assert_eq!(d.way_ids(), &vec![10, 11]);
    assert_eq!(d.way_count(), 2);
}

#[test]
fn a_store_is_closed_when_it_holds_the_nodes_of_its_ways() {
    let mut d = OsmData::new();
    assert!(d.is_closed());
    assert!(d.insert_node(node(1, 0, 0)));
    assert!(d.insert_node(node(2, 0, 1)));
    assert!(d.insert_way(way(10, &[1, 2, 1], &[])));
    assert!(d.insert_way(way(11, &[], &[])));
    assert!(d.is_closed());
    // a way may come in before its nodes
    assert!(d.insert_way(way(12, &[1, 3], &[])));
    assert!(!d.is_closed());
    assert_eq!(d.way(12).unwrap().nodes, vec![1, 3]);
    assert!(d.insert_node(node(3, 5, 5)));
    assert!(d.is_closed());
}

#[test]
fn a_batch_may_list_nodes_that_only_the_store_holds() {
    let mut osm = EditorOsmData::new();
    let mut first = OsmData::new();
    assert!(first.insert_node(node(1, 0, 0)));
    assert!(first.insert_node(node(2, 0, 1)));
    osm.append_new_nodes_ways(first);

    let mut second = OsmData::new();
    assert!(second.insert_node(node(3, 0, 2)));
    assert!(second.insert_way(way(10, &[1, 2, 3], &[])));
    assert!(!second.is_closed());
    osm.append_new_nodes_ways(second);
    assert!(osm.data.is_closed());
    assert_eq!(osm.data.way(10).unwrap().nodes, vec![1, 2, 3]);
    osm.refresh_elements_in_view(Coordinate::new(-1, -1), Coordinate::new(1, 1));
    assert_eq!(osm.ways_in_view, vec![10]);
}

#[test]
fn replace_way_overwrites_or_files() {
    let mut d = OsmData::new();
    assert!(d.insert_node(node(1, 0, 0)));
    assert!(d.insert_way(way(10, &[1], &[("a", "1")])));
    d.replace_way(way(10, &[1, 1], &[("a", "2")]));
    assert_eq!(d.way_count(), 1);
    assert_eq!(d.way(10).unwrap().nodes, vec![1, 1]);
    assert_eq!(d.way(10).unwrap().tags.get("a").map(String::as_str), Some("2"));
    d.replace_way(way(11, &[], &[]));
    assert_eq!(d.way_ids(), &vec![10, 11]);
}

#[test]
fn tags_ok_tells_repeated_keys() {
    let mut t = Tags::new();
    assert!(tags_ok(&t));
    t.insert("a".to_string(), "1".to_string());
    t.insert("b".to_string(), "1".to_string());
    assert!(tags_ok(&t));
}

#[test]
fn closed_way_has_equal_ends() {
    assert!(is_way_closed(&way(1, &[], &[])));
    assert!(is_way_closed(&way(1, &[5], &[])));
    assert!(is_way_closed(&way(1, &[5, 6, 5], &[])));
    assert!(!is_way_closed(&way(1, &[5, 6], &[])));
    assert!(!is_way_closed(&way(1, &[5, 6, 7, 6], &[])));
    assert_eq!(clone_ids(&vec![3, 1, 2]), vec![3, 1, 2]);
}

#[test]
fn merge_keeps_what_the_store_has() {
    let mut d = batch(&[(1, "old one"), (2, "old two")]);
    d.merge(batch(&[(2, "new two"), (3, "new three")]));
    assert_eq!(
        names(&d),
        vec![(1, "old one".to_string()), (2, "old two".to_string()), (3, "new three".to_string())]
    );
    assert_eq!(d.node_ids(), &vec![1, 2, 3]);
}

#[test]
fn merge_brings_ways_with_their_nodes() {
    let mut d = OsmData::new();
    assert!(d.insert_node(node(1, 0, 0)));
    assert!(d.insert_way(way(10, &[1], &[("k", "old")])));
    let mut from = OsmData::new();
    assert!(from.insert_node(node(2, 1, 1)));
    assert!(from.insert_node(node(3, 2, 2)));
    assert!(from.insert_way(way(10, &[2, 3], &[("k", "new")])));
    assert!(from.insert_way(way(11, &[2, 3], &[])));
    d.merge(from);
    assert_eq!(d.way(10).unwrap().nodes, vec![1]);
    assert_eq!(d.way(10).unwrap().tags.get("k").map(String::as_str), Some("old"));
    assert_eq!(d.way(11).unwrap().nodes, vec![2, 3]);
    assert_eq!(d.node_count(), 3);
    assert_eq!(d.way_ids(), &vec![10, 11]);
}

#[test]
fn appends_in_sequence_equal_one_append_of_the_merged_batches() {
    let a = || batch(&[(1, "a1"), (2, "a2")]);
    let b = || batch(&[(2, "b2"), (3, "b3")]);
    let c = || batch(&[(3, "c3"), (4, "c4"), (1, "c1")]);

    let mut one_by_one = EditorOsmData::new();
    one_by_one.append_new_nodes_ways(a());
    one_by_one.append_new_nodes_ways(b());
    one_by_one.append_new_nodes_ways(c());

    let mut merged = a();
    merged.merge(b());
    merged.merge(c());
    let mut at_once = EditorOsmData::new();
    at_once.append_new_nodes_ways(merged);

    let expected = vec![
        (1, "a1".to_string()),
        (2, "a2".to_string()),
        (3, "b3".to_string()),
        (4, "c4".to_string()),
    ];
    assert_eq!(names(&one_by_one.data), expected);
    assert_eq!(names(&at_once.data), expected);
}

#[test]
fn batches_without_common_ids_commute() {
    let a = || batch(&[(1, "a1"), (2, "a2")]);
    let b = || batch(&[(3, "b3"), (4, "b4")]);
    let mut ab = EditorOsmData::new();
    ab.append_new_nodes_ways(a());
    ab.append_new_nodes_ways(b());
    let mut ba = EditorOsmData::new();
    ba.append_new_nodes_ways(b());
    ba.append_new_nodes_ways(a());
    assert_eq!(names(&ab.data), names(&ba.data));
    assert_eq!(ab.data.node_count(), 4);
}

#[test]
fn append_marks_node_caches_for_nodes_and_way_caches_for_ways() {
    let mut osm = EditorOsmData::new();
    osm.append_new_nodes_ways(OsmData::new());
    assert!(osm.cache_flags.is_empty());

    osm.append_new_nodes_ways(batch(&[(1, "n")]));
    assert!(osm.cache_flags.contains(CacheFlag::NodeProjection));
    assert!(osm.cache_flags.contains(CacheFlag::NodeOrphan));
    assert!(osm.cache_flags.contains(CacheFlag::NodeDedup));
    assert!(osm.cache_flags.contains(CacheFlag::NodeUsage));
    assert!(!osm.cache_flags.contains(CacheFlag::WayArea));
    assert!(!osm.cache_flags.contains(CacheFlag::WayMeshAndAreaSize));
    assert!(!osm.cache_flags.contains(CacheFlag::AreaSizeOrdered));

    let mut osm = EditorOsmData::new();
    let mut ways_only = OsmData::new();
    assert!(ways_only.insert_way(way(10, &[], &[])));
    osm.append_new_nodes_ways(ways_only);
    assert!(osm.cache_flags.contains(CacheFlag::WayArea));
    assert!(osm.cache_flags.contains(CacheFlag::WayMeshAndAreaSize));
    assert!(osm.cache_flags.contains(CacheFlag::AreaSizeOrdered));
    assert!(!osm.cache_flags.contains(CacheFlag::NodeProjection));
    assert!(!osm.cache_flags.contains(CacheFlag::NodeOrphan));
    assert!(!osm.cache_flags.contains(CacheFlag::NodeDedup));
    assert!(!osm.cache_flags.contains(CacheFlag::NodeUsage));
    assert!(!osm.refresh_in_view_flag);
}

#[test]
fn receive_map_asks_for_a_view_refresh() {
    let mut osm = EditorOsmData::new();
    osm.receive_map(batch(&[(1, "n")]));
    assert!(osm.refresh_in_view_flag);
    assert_eq!(osm.data.node_count(), 1);
}

#[test]
fn a_merge_is_tested_for_closedness_before_it_is_made() {
    let mut store = OsmData::new();
    assert!(store.insert_node(node(1, 0, 0)));
    assert!(store.insert_node(node(2, 0, 1)));
    assert!(store.insert_way(way(10, &[1, 2], &[])));
    assert!(store.closed_with(&OsmData::new()));

    // a way of the batch may list nodes of the store, of the batch, or of both
    let mut good = OsmData::new();
    assert!(good.insert_node(node(3, 0, 2)));
    assert!(good.insert_way(way(11, &[1, 3, 2], &[])));
    assert!(!good.is_closed());
    assert!(store.closed_with(&good));
    assert!(!good.closed_with(&OsmData::new()));

    // a node that neither holds
    let mut bad = OsmData::new();
    assert!(bad.insert_node(node(3, 0, 2)));
    assert!(bad.insert_way(way(11, &[1, 4], &[])));
    assert!(!store.closed_with(&bad));

    // a way of the batch whose identifier the store has does not come in
    let mut shadowed = OsmData::new();
    assert!(shadowed.insert_way(way(10, &[7, 8, 9], &[])));
    assert!(store.closed_with(&shadowed));

    // a store that is not closed becomes closed by the nodes of the batch
    let mut open = OsmData::new();
    assert!(open.insert_way(way(12, &[5], &[])));
    assert!(!open.closed_with(&store));
    let mut five = OsmData::new();
    assert!(five.insert_node(node(5, 1, 1)));
    assert!(open.closed_with(&five));
    assert!(five.closed_with(&open));

    // the answer is that of the merged store
    for (other, closed) in [(good, true), (bad, false), (shadowed, true), (five, true)] {
        let mut merged = OsmData::new();
        assert!(merged.insert_node(node(1, 0, 0)));
        assert!(merged.insert_node(node(2, 0, 1)));
        assert!(merged.insert_way(way(10, &[1, 2], &[])));
        assert_eq!(store.closed_with(&other), closed);
        merged.merge(other);
        assert_eq!(merged.is_closed(), closed);
    }
}

#[test]
fn a_batch_that_would_open_the_store_is_refused() {
    let mut osm = EditorOsmData::new();
    let mut first = OsmData::new();
    assert!(first.insert_node(node(1, 0, 0)));
    assert!(first.insert_node(node(2, 0, 1)));
    assert!(osm.try_receive_map(first));
    assert!(osm.refresh_in_view_flag);
    assert_eq!(osm.data.node_ids(), &vec![1, 2]);
    osm.refresh_in_view_flag = false;
    let flags = osm.cache_flags;

    let mut bad = OsmData::new();
    assert!(bad.insert_node(node(3, 0, 2)));
    assert!(bad.insert_way(way(10, &[1, 4], &[])));
    assert!(!osm.try_receive_map(bad));
    assert_eq!(osm.data.node_ids(), &vec![1, 2]);
    assert_eq!(osm.data.way_count(), 0);
    assert!(!osm.refresh_in_view_flag);
    assert!(osm.cache_flags == flags);

    let mut good = OsmData::new();
    assert!(good.insert_node(node(3, 0, 2)));
    assert!(good.insert_way(way(10, &[1, 3], &[])));
    assert!(osm.try_receive_map(good));
    assert_eq!(osm.data.node_ids(), &vec![1, 2, 3]);
    assert_eq!(osm.data.way_ids(), &vec![10]);
    assert!(osm.data.is_closed());
    assert!(osm.refresh_in_view_flag);

    // an empty batch is taken, and changes nothing in the store
    assert!(osm.try_receive_map(OsmData::new()));
    assert_eq!(osm.data.node_ids(), &vec![1, 2, 3]);
}
