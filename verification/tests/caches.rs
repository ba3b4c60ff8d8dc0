use walkers_editor::cache::{Change, Color32, EditorOsmData, ElementId, ElementRef};
use walkers_editor::data::{Coordinate, Node, OsmData, Way};
use walkers_editor::geometry::{Pos2, Vec2};
use walkers_editor::model::{has_three_distinct_nodes, is_way_area};
use walkers_editor::states::CacheFlag;
use walkers_editor::tags::Tags;

fn node(id: u64, lat: i32, lon: i32) -> Node {
    Node { id, pos: Coordinate::new(lat, lon), tags: Tags::new(), changeset: 1, version: 1 }
}

fn way(id: u64, nodes: &[u64], tags: &[(&str, &str)]) -> Way {
    let mut t = Tags::new();
    for (k, v) in tags {
        t.insert(k.to_string(), v.to_string());
    }
    Way { id, nodes: nodes.to_vec(), tags: t, changeset: 1, version: 1 }
}

fn project(c: Coordinate) -> Pos2 {
    Pos2::new(c.lon, c.lat)
}

fn sorted(mut v: Vec<u64>) -> Vec<u64> {
    v.sort();
    v
}

/// A store with a street 100 (nodes 1-2-3), a building 200 (square 4-5-6-7),
/// a large park 300 (square 8-9-10-11), and orphans 20, 21.
fn town() -> OsmData {
    let mut d = OsmData::new();
    for (id, lat, lon) in [
        (1, 0, 0),
        (2, 0, 10),
        (3, 0, 20),
        (4, 10, 0),
        (5, 10, 2),
        (6, 12, 2),
        (7, 12, 0),
        (8, 20, 0),
        (9, 20, 30),
        (10, 50, 30),
        (11, 50, 0),
        (20, 5, 5),
        (21, 5, 6),
    ] {
        assert!(d.insert_node(node(id, lat, lon)));
    }
    assert!(d.insert_way(way(100, &[1, 2, 3], &[("highway", "residential")])));
    assert!(d.insert_way(way(200, &[4, 5, 6, 7, 4], &[("building", "yes")])));
    assert!(d.insert_way(way(300, &[8, 11, 10, 9, 8], &[("leisure", "park")])));
    d
}

fn bank(d: OsmData, lo: (i32, i32), hi: (i32, i32)) -> EditorOsmData {
    let mut osm = EditorOsmData::new();
    osm.append_new_nodes_ways(d);
    osm.refresh_elements_in_view(Coordinate::new(lo.0, lo.1), Coordinate::new(hi.0, hi.1));
    osm
}

fn refresh_all(osm: &mut EditorOsmData) {
    osm.refresh_node_usage_cache();
    osm.refresh_orphan_nodes_cache();
    osm.refresh_way_area_cache();
    osm.refresh_node_dedup_cache();
    osm.refresh_projected_nodes_cache(&project, Coordinate::new(0, 0));
    assert!(osm.are_areas_projected());
    osm.refresh_way_mesh_and_area_size_cache(Coordinate::new(0, 0));
    osm.refresh_area_size_ordered_cache();
}

#[test]
fn view_lists_hold_what_is_in_the_box() {
    let osm = bank(town(), (-1, -1), (11, 11));
    assert_eq!(sorted(osm.nodes_in_view.clone()), vec![1, 2, 4, 5, 20, 21]);
    assert_eq!(sorted(osm.ways_in_view.clone()), vec![100, 200]);
    assert!(!osm.refresh_in_view_flag);
}

#[test]
fn orphans_are_nodes_in_view_that_no_way_lists() {
    let mut osm = bank(town(), (-100, -100), (100, 100));
    osm.refresh_orphan_nodes_cache();
    assert_eq!(sorted(osm.orphan_nodes.clone()), vec![20, 21]);
    assert!(!osm.cache_flags.contains(CacheFlag::NodeOrphan));
    assert!(osm.cache_flags.contains(CacheFlag::NodeDedup));
}

#[test]
fn a_node_of_a_way_out_of_view_is_no_orphan() {
    // only node 3 and the orphans are in view; way 100 is in view by its box,
    // but even with a box that holds no way the node stays parented
    let mut d = town();
    assert!(d.insert_node(node(30, 500, 500)));
    assert!(d.insert_node(node(31, 600, 600)));
    assert!(d.insert_way(way(400, &[30, 31], &[])));
    let mut osm = bank(d, (499, 499), (501, 501));
    assert_eq!(osm.nodes_in_view, vec![30]);
    osm.refresh_orphan_nodes_cache();
    assert!(osm.orphan_nodes.is_empty());
}

#[test]
fn ways_are_parted_into_lines_and_areas() {
    let mut osm = bank(town(), (-100, -100), (100, 100));
    osm.refresh_way_area_cache();
    assert_eq!(osm.way_area.ways, vec![100]);
    assert_eq!(sorted(osm.way_area.areas.clone()), vec![200, 300]);
    assert!(!osm.cache_flags.contains(CacheFlag::WayArea));
}

#[test]
fn area_rules() {
    let square = [1, 2, 3, 4, 1];
    assert!(is_way_area(&way(1, &square, &[("building", "yes")])));
    assert!(is_way_area(&way(1, &square, &[("landuse", "forest")])));
    assert!(is_way_area(&way(1, &square, &[("natural", "water")])));
    assert!(is_way_area(&way(1, &square, &[("leisure", "park")])));
    assert!(is_way_area(&way(1, &square, &[("amenity", "school")])));
    assert!(is_way_area(&way(1, &square, &[("playground", "slide")])));
    assert!(is_way_area(&way(1, &square, &[("area", "yes")])));
    assert!(is_way_area(&way(1, &square, &[("highway", "pedestrian"), ("area", "yes")])));
    // area=no overrules the keys that mark areas
    assert!(!is_way_area(&way(1, &square, &[("building", "yes"), ("area", "no")])));
    // any other value of area leaves the keys to decide
    assert!(is_way_area(&way(1, &square, &[("building", "yes"), ("area", "maybe")])));
    assert!(!is_way_area(&way(1, &square, &[("area", "maybe")])));
    // no tags, or none that marks an area
    assert!(!is_way_area(&way(1, &square, &[])));
    assert!(!is_way_area(&way(1, &square, &[("highway", "residential")])));
    // not closed
    assert!(!is_way_area(&way(1, &[1, 2, 3, 4], &[("building", "yes")])));
    // closed, but fewer than three different nodes
    assert!(!is_way_area(&way(1, &[], &[("building", "yes")])));
    assert!(!is_way_area(&way(1, &[1], &[("building", "yes")])));
    assert!(!is_way_area(&way(1, &[1, 1], &[("building", "yes")])));
    assert!(!is_way_area(&way(1, &[1, 2, 1], &[("building", "yes")])));
    assert!(!is_way_area(&way(1, &[1, 2, 1, 2, 1], &[("building", "yes")])));
    // a triangle is the smallest area
    assert!(is_way_area(&way(1, &[1, 2, 3, 1], &[("building", "yes")])));
}

#[test]
fn three_distinct_nodes() {
    assert!(!has_three_distinct_nodes(&vec![]));
    assert!(!has_three_distinct_nodes(&vec![1, 2]));
    assert!(!has_three_distinct_nodes(&vec![1, 1, 1, 1]));
    assert!(!has_three_distinct_nodes(&vec![1, 2, 2, 1, 2]));
    assert!(has_three_distinct_nodes(&vec![1, 2, 3]));
    assert!(has_three_distinct_nodes(&vec![1, 1, 2, 2, 1, 3]));
    assert!(has_three_distinct_nodes(&vec![7, 7, 7, 8, 9]));
}

#[test]
fn dedup_takes_the_ends_of_line_ways_and_all_orphans() {
    let mut d = town();
    // a second street that starts where street 100 ends, at another node on
    // the same spot
    assert!(d.insert_node(node(40, 0, 20)));
    assert!(d.insert_node(node(41, 0, 40)));
    assert!(d.insert_way(way(101, &[40, 41], &[("highway", "service")])));
    // an orphan on the spot of orphan 20
    assert!(d.insert_node(node(22, 5, 5)));
    let mut osm = bank(d, (-100, -100), (100, 100));
    osm.refresh_orphan_nodes_cache();
    osm.refresh_way_area_cache();
    osm.refresh_node_dedup_cache();
    assert!(!osm.cache_flags.contains(CacheFlag::NodeDedup));

    // the middle node 2 of street 100 is never a candidate
    assert!(!osm.node_dedup.way_nodes.contains(&2));
    // nodes of areas are no candidates
    assert!(!osm.node_dedup.way_nodes.contains(&4));
    // of nodes 3 and 40, which share a spot, one stays: the one of the way
    // that comes first among the line ways
    assert!(osm.node_dedup.way_nodes.contains(&1));
    assert!(osm.node_dedup.way_nodes.contains(&41));
    assert!(osm.node_dedup.way_nodes.contains(&3) != osm.node_dedup.way_nodes.contains(&40));
    assert_eq!(osm.node_dedup.way_nodes.len(), 3);
    let first_way = osm.way_area.ways[0];
    assert_eq!(osm.node_dedup.way_nodes.contains(&3), first_way == 100);

    // of orphans 20 and 22 one stays, and 21 stays
    assert!(osm.node_dedup.orphan_nodes.contains(&21));
    assert!(osm.node_dedup.orphan_nodes.contains(&20) != osm.node_dedup.orphan_nodes.contains(&22));
    assert_eq!(osm.node_dedup.orphan_nodes.len(), 2);
}

#[test]
fn dedup_of_ways_with_no_and_one_node() {
    let mut d = OsmData::new();
    assert!(d.insert_node(node(1, 0, 0)));
    assert!(d.insert_node(node(2, 1, 1)));
    assert!(d.insert_way(way(10, &[2], &[])));
    assert!(d.insert_way(way(11, &[1, 2, 1], &[])));
    let mut osm = bank(d, (-5, -5), (5, 5));
    osm.refresh_orphan_nodes_cache();
    osm.refresh_way_area_cache();
    osm.refresh_node_dedup_cache();
    assert_eq!(sorted(osm.node_dedup.way_nodes.clone()), vec![1, 2]);
    assert!(osm.node_dedup.orphan_nodes.is_empty());
}

#[test]
fn usage_lists_the_ways_of_each_node() {
    let mut d = town();
    assert!(d.insert_way(way(101, &[3, 2], &[("highway", "service")])));
    let mut osm = bank(d, (-1, -1), (1, 100));
    assert_eq!(sorted(osm.ways_in_view.clone()), vec![100, 101]);
    osm.refresh_node_usage_cache();
    assert_eq!(osm.node_usage.len(), 3);
    assert_eq!(osm.node_usage[&1], vec![100]);
    assert_eq!(sorted(osm.node_usage[&2].clone()), vec![100, 101]);
    assert_eq!(sorted(osm.node_usage[&3].clone()), vec![100, 101]);
    assert!(!osm.node_usage.contains_key(&4));
    assert!(!osm.cache_flags.contains(CacheFlag::NodeUsage));
}

#[test]
fn usage_counts_a_closed_way_twice_at_its_first_node() {
    let mut osm = bank(town(), (9, -1), (13, 3));
    assert_eq!(osm.ways_in_view, vec![200]);
    osm.refresh_node_usage_cache();
    assert_eq!(osm.node_usage[&4], vec![200, 200]);
    assert_eq!(osm.node_usage[&5], vec![200]);
}

#[test]
fn projection_covers_way_nodes_and_kept_orphans() {
    let mut d = town();
    assert!(d.insert_node(node(22, 5, 5)));
    let mut osm = bank(d, (-1, -1), (6, 11));
    osm.refresh_orphan_nodes_cache();
    osm.refresh_way_area_cache();
    osm.refresh_node_dedup_cache();
    osm.refresh_projected_nodes_cache(&project, Coordinate::new(3, 4));
    assert_eq!(osm.node_start, Coordinate::new(3, 4));
    assert_eq!(osm.node_offset_move, Vec2::zero());
    // way 100 is in view with all of its nodes, also node 3 outside the box
    assert_eq!(osm.get_projected_origin_pos(&1), Some(Pos2::new(0, 0)));
    assert_eq!(osm.get_projected_origin_pos(&2), Some(Pos2::new(10, 0)));
    assert_eq!(osm.get_projected_origin_pos(&3), Some(Pos2::new(20, 0)));
    assert_eq!(osm.get_projected_origin_pos(&21), Some(Pos2::new(6, 5)));
    // of the orphans 20 and 22 only the kept one is projected
    assert!(
        osm.get_projected_origin_pos(&20).is_some() != osm.get_projected_origin_pos(&22).is_some()
    );
    // nodes of ways out of view are not
    assert_eq!(osm.get_projected_origin_pos(&8), None);
    assert_eq!(osm.get_projected_pos(&8), None);
    assert_eq!(osm.projected_nodes.len(), 5);
    assert!(osm.is_way_projected(&100));
    assert!(!osm.is_way_projected(&300));
    assert!(!osm.is_way_projected(&12345));
    assert_eq!(
        osm.get_projected_origin_positions_in_way(&100),
        vec![Pos2::new(0, 0), Pos2::new(10, 0), Pos2::new(20, 0)]
    );
}

#[test]
fn positions_move_with_the_offsets() {
    let mut osm = bank(town(), (-1, -1), (1, 30));
    refresh_all(&mut osm);
    osm.node_offset_move = Vec2::new(5, -7);
    osm.node_offset_resize = Vec2::new(100, 1000);
    assert_eq!(osm.get_projected_pos(&2), Some(Pos2::new(115, 993)));
    assert_eq!(osm.get_projected_origin_pos(&2), Some(Pos2::new(10, 0)));
    assert_eq!(
        osm.get_projected_positions_in_way(&100),
        vec![Pos2::new(105, 993), Pos2::new(115, 993), Pos2::new(125, 993)]
    );
    // sums stop at the ends of the range
    osm.node_offset_move = Vec2::new(i32::MAX, i32::MIN);
    osm.node_offset_resize = Vec2::new(i32::MAX, -5);
    assert_eq!(osm.get_projected_pos(&2), Some(Pos2::new(i32::MAX, i32::MIN)));
}

#[test]
fn meshes_and_paint_order_of_the_town() {
    let mut osm = bank(town(), (-100, -100), (100, 100));
    refresh_all(&mut osm);
    assert!(osm.cache_flags.is_empty());
    assert_eq!(osm.way_mesh.len(), 2);
    assert_eq!(osm.way_mesh[&200].indices.len(), 6);
    assert_eq!(osm.way_mesh[&300].indices.len(), 6);
    // the park of 30 x 30 comes before the building of 2 x 2
    assert_eq!(osm.area_ids_in_paint_order(), vec![300, 200]);
    assert_eq!(osm.area_count(), 2);
    assert_eq!(osm.area_size_of(&300).map(i128::abs), Some(900));
    assert_eq!(osm.area_size_of(&200).map(i128::abs), Some(4));
    assert_eq!(osm.area_size_of(&100), None);
    // the two turn in opposite directions
    assert!(osm.area_size_of(&300).unwrap().signum() != osm.area_size_of(&200).unwrap().signum());
    assert_eq!(osm.mesh_start, Coordinate::new(0, 0));
}

#[test]
fn way_mesh_is_moved_and_painted() {
    let mut osm = bank(town(), (-100, -100), (100, 100));
    refresh_all(&mut osm);
    osm.mesh_offset_move = Vec2::new(1000, 2000);
    osm.mesh_offset_resize = Vec2::new(1, 2);
    let color = Color32 { r: 9, g: 8, b: 7, a: 6 };
    let mesh = osm.get_way_mesh(&200, color);
    assert_eq!(mesh.indices, osm.way_mesh[&200].indices);
    assert_eq!(mesh.vertices.len(), 4);
    let mut corners: Vec<(i32, i32)> = mesh.vertices.iter().map(|v| (v.pos.x, v.pos.y)).collect();
    corners.sort();
    assert_eq!(corners, vec![(1001, 2012), (1001, 2014), (1003, 2012), (1003, 2014)]);
    assert!(mesh.vertices.iter().all(|v| v.color == color));
}

#[test]
fn an_area_that_crosses_itself_gets_no_mesh_but_has_its_place_in_the_order() {
    let mut d = OsmData::new();
    for (id, lat, lon) in [(1, 0, 0), (2, 10, 10), (3, 0, 10), (4, 10, 0)] {
        assert!(d.insert_node(node(id, lat, lon)));
    }
    // a bow tie
    assert!(d.insert_way(way(500, &[1, 2, 3, 4, 1], &[("building", "yes")])));
    let mut osm = bank(d, (-100, -100), (100, 100));
    refresh_all(&mut osm);
    assert_eq!(osm.way_area.areas, vec![500]);
    assert!(osm.way_mesh.is_empty());
    assert_eq!(osm.area_ids_in_paint_order(), vec![500]);
    assert_eq!(osm.area_size_of(&500), Some(0));
}

#[test]
fn an_area_beyond_the_range_of_the_tessellator_gets_no_mesh() {
    let mut d = OsmData::new();
    let far = 0x80_0001;
    for (id, lat, lon) in [(1, 0, 0), (2, 0, far), (3, 10, far), (4, 10, 0)] {
        assert!(d.insert_node(node(id, lat, lon)));
    }
    assert!(d.insert_way(way(500, &[1, 2, 3, 4, 1], &[("building", "yes")])));
    let mut osm = bank(d, (-100, -100), (100, i32::MAX));
    refresh_all(&mut osm);
    assert_eq!(osm.way_area.areas, vec![500]);
    assert!(osm.way_mesh.is_empty());
    assert_eq!(osm.area_size_of(&500).map(i128::abs), Some(10 * far as i128));
}

#[test]
fn an_area_at_the_edge_of_the_range_gets_its_mesh() {
    let mut d = OsmData::new();
    let edge = 0x80_0000;
    for (id, lat, lon) in [(1, -edge, -edge), (2, -edge, edge), (3, edge, edge), (4, edge, -edge)] {
        assert!(d.insert_node(node(id, lat, lon)));
    }
    assert!(d.insert_way(way(500, &[1, 2, 3, 4, 1], &[("building", "yes")])));
    let mut osm = bank(d, (i32::MIN, i32::MIN), (i32::MAX, i32::MAX));
    refresh_all(&mut osm);
    assert_eq!(osm.way_mesh.len(), 1);
    let mesh = &osm.way_mesh[&500];
    assert_eq!(mesh.indices.len(), 6);
    let mut corners: Vec<(i32, i32)> = mesh.vertices.iter().map(|v| (v.x, v.y)).collect();
    corners.sort();
    assert_eq!(corners, vec![(-edge, -edge), (-edge, edge), (edge, -edge), (edge, edge)]);
}

#[test]
fn areas_of_one_size_keep_their_order() {
    let mut d = OsmData::new();
    let mut id = 0;
    // five squares of side 2, one of side 3, one of side 1
    for (k, side) in [(0, 2), (1, 2), (2, 3), (3, 2), (4, 1), (5, 2), (6, 2)] {
        let base = k * 10;
        let mut ids = vec![];
        for (lat, lon) in [(0, 0), (0, side), (side, side), (side, 0)] {
            id += 1;
            assert!(d.insert_node(node(id, lat, base + lon)));
            ids.push(id);
        }
        ids.push(ids[0]);
        assert!(d.insert_way(way(1000 + k as u64, &ids, &[("building", "yes")])));
    }
    let mut osm = bank(d, (-100, -100), (100, 100));
    refresh_all(&mut osm);
    let order = osm.area_ids_in_paint_order();
    assert_eq!(order.len(), 7);
    assert_eq!(order[0], 1002);
    assert_eq!(order[6], 1004);
    let twos: Vec<u64> = osm.way_area.areas.iter().copied().filter(|a| ![1002, 1004].contains(a)).collect();
    assert_eq!(order[1..6].to_vec(), twos);
    let sizes: Vec<i128> = order.iter().map(|a| osm.area_size_of(a).unwrap().abs()).collect();
    assert_eq!(sizes, vec![9, 4, 4, 4, 4, 4, 1]);
}

#[test]
fn refreshing_twice_changes_nothing() {
    let mut osm = bank(town(), (-100, -100), (100, 100));
    refresh_all(&mut osm);
    let orphans = osm.orphan_nodes.clone();
    let lines = osm.way_area.ways.clone();
    let areas = osm.way_area.areas.clone();
    let way_nodes = osm.node_dedup.way_nodes.clone();
    let kept = osm.node_dedup.orphan_nodes.clone();
    let usage = osm.node_usage.clone();
    let projected = osm.projected_nodes.clone();
    let order = osm.area_ids_in_paint_order();
    let meshes: Vec<(u64, Vec<u32>, Vec<Pos2>)> = {
        let mut v: Vec<_> = osm
            .way_mesh
            .iter()
            .map(|(k, m)| (*k, m.indices.clone(), m.vertices.clone()))
            .collect();
        v.sort_by_key(|e| e.0);
        v
    };
    let nodes_in_view = osm.nodes_in_view.clone();
    let ways_in_view = osm.ways_in_view.clone();

    osm.refresh_elements_in_view(Coordinate::new(-100, -100), Coordinate::new(100, 100));
    refresh_all(&mut osm);

    assert_eq!(osm.nodes_in_view, nodes_in_view);
    assert_eq!(osm.ways_in_view, ways_in_view);
    assert_eq!(osm.orphan_nodes, orphans);
    assert_eq!(osm.way_area.ways, lines);
    assert_eq!(osm.way_area.areas, areas);
    assert_eq!(osm.node_dedup.way_nodes, way_nodes);
    assert_eq!(osm.node_dedup.orphan_nodes, kept);
    assert_eq!(osm.node_usage, usage);
    assert_eq!(osm.projected_nodes, projected);
    assert_eq!(osm.area_ids_in_paint_order(), order);
    let again: Vec<(u64, Vec<u32>, Vec<Pos2>)> = {
        let mut v: Vec<_> = osm
            .way_mesh
            .iter()
            .map(|(k, m)| (*k, m.indices.clone(), m.vertices.clone()))
            .collect();
        v.sort_by_key(|e| e.0);
        v
    };
    assert_eq!(again, meshes);
}

#[test]
fn two_edits_to_one_way_leave_one_entry() {
    let mut osm = bank(town(), (-100, -100), (100, 100));
    let first = way(100, &[1, 2, 3], &[("highway", "residential"), ("sidewalk", "left")]);
    let second = way(100, &[1, 2, 3], &[("highway", "residential"), ("sidewalk", "both")]);
    osm.apply_change(Change::UpdateWay(100, first));
    assert_eq!(osm.changes.len(), 1);
    osm.apply_change(Change::UpdateWay(100, second));
    assert_eq!(osm.changes.len(), 1);
    match &osm.changes[0] {
        Change::UpdateWay(id, w) => {
            assert_eq!(*id, 100);
            assert_eq!(w.tags.get("sidewalk").map(String::as_str), Some("both"));
        }
    }
    assert_eq!(osm.data.way(100).unwrap().tags.get("sidewalk").map(String::as_str), Some("both"));
}

#[test]
fn edits_to_different_ways_are_logged_one_by_one() {
    let mut osm = bank(town(), (-100, -100), (100, 100));
    osm.apply_change(Change::UpdateWay(100, way(100, &[1, 2, 3], &[("name", "A")])));
    osm.apply_change(Change::UpdateWay(200, way(200, &[4, 5, 6, 7, 4], &[("name", "B")])));
    osm.apply_change(Change::UpdateWay(100, way(100, &[1, 2, 3], &[("name", "C")])));
    osm.apply_change(Change::UpdateWay(100, way(100, &[1, 2, 3], &[("name", "D")])));
    let ids: Vec<(u64, String)> = osm
        .changes
        .iter()
        .map(|c| match c {
            Change::UpdateWay(id, w) => (*id, w.tags.get("name").unwrap().clone()),
        })
        .collect();
    assert_eq!(
        ids,
        vec![(100, "A".to_string()), (200, "B".to_string()), (100, "D".to_string())]
    );
    assert_eq!(osm.data.way(100).unwrap().tags.get("name").map(String::as_str), Some("D"));
    assert_eq!(osm.data.way(200).unwrap().tags.get("name").map(String::as_str), Some("B"));
}

#[test]
fn an_edit_leaves_caches_and_flags_alone() {
    let mut osm = bank(town(), (-100, -100), (100, 100));
    refresh_all(&mut osm);
    let areas = osm.way_area.areas.clone();
    osm.apply_change(Change::UpdateWay(100, way(100, &[1, 2, 3], &[("name", "A")])));
    assert!(osm.cache_flags.is_empty());
    assert_eq!(osm.way_area.areas, areas);
    assert_eq!(osm.data.node_count(), 13);
}

#[test]
fn change_is_described_by_name_or_by_id() {
    let named = Change::UpdateWay(7, way(7, &[], &[("highway", "path"), ("name", "Elm Road")]));
    assert_eq!(named.describe(), "Updated Elm Road");
    let unnamed = Change::UpdateWay(1234567890, way(1234567890, &[], &[("highway", "path")]));
    assert_eq!(unnamed.describe(), "Updated Way 1234567890");
    assert_eq!(Change::UpdateWay(0, way(0, &[], &[])).describe(), "Updated Way 0");
}

#[test]
fn get_finds_nodes_before_ways() {
    let mut d = town();
    assert!(d.insert_way(way(1, &[1, 2], &[("name", "shares an id with node 1")])));
    let osm = bank(d, (0, 0), (0, 0));
    match osm.get(&1) {
        Some(ElementRef::Node(n)) => assert_eq!(n.id, 1),
        _ => panic!("node expected"),
    }
    match osm.get(&100) {
        Some(e) => {
            assert_eq!(e.element_id(), ElementId::Way(100));
            assert_eq!(*e.id_ref(), 100);
            assert_eq!(e.type_str(), "Way");
            assert_eq!(e.name(), None);
            assert_eq!(e.tags().get("highway").map(String::as_str), Some("residential"));
        }
        None => panic!("way expected"),
    }
    let e = osm.get(&20).unwrap();
    assert_eq!(e.type_str(), "Node");
    assert_eq!(e.element_id(), ElementId::Node(20));
    assert_eq!(*ElementId::Way(5).id_ref(), 5);
    assert_eq!(*ElementId::Node(6).id_ref(), 6);
    assert!(osm.get(&999).is_none());
}

#[test]
fn pending_mesh_waits_for_positions() {
    let mut osm = EditorOsmData::new();
    osm.append_new_nodes_ways(town());
    osm.refresh_elements_in_view(Coordinate::new(-100, -100), Coordinate::new(100, 100));
    osm.refresh_way_area_cache();
    // nothing is projected yet
    assert!(!osm.are_areas_projected());
    osm.refresh_orphan_nodes_cache();
    osm.refresh_node_dedup_cache();
    osm.refresh_projected_nodes_cache(&project, Coordinate::new(0, 0));
    assert!(osm.are_areas_projected());
}

#[test]
fn an_orphan_on_the_spot_of_a_way_end_is_not_drawn() {
    let mut d = town();
    // orphans on the spots of the two ends of street 100, and on its middle node
    assert!(d.insert_node(node(50, 0, 0)));
    assert!(d.insert_node(node(51, 0, 20)));
    assert!(d.insert_node(node(52, 0, 10)));
    let mut osm = bank(d, (-100, -100), (100, 100));
    osm.refresh_orphan_nodes_cache();
    osm.refresh_way_area_cache();
    osm.refresh_node_dedup_cache();
    assert_eq!(sorted(osm.orphan_nodes.clone()), vec![20, 21, 50, 51, 52]);
    assert_eq!(sorted(osm.node_dedup.way_nodes.clone()), vec![1, 3]);
    // the way ends claim their spots; the middle node of the way is no candidate
    assert_eq!(sorted(osm.node_dedup.orphan_nodes.clone()), vec![20, 21, 52]);
    // no two nodes to draw stand on one spot
    let mut spots: Vec<(i32, i32)> = osm
        .node_dedup
        .way_nodes
        .iter()
        .chain(osm.node_dedup.orphan_nodes.iter())
        .map(|id| {
            let p = osm.data.node(*id).unwrap().pos;
            (p.lat, p.lon)
        })
        .collect();
    let count = spots.len();
    spots.sort();
    spots.dedup();
    assert_eq!(spots.len(), count);
}

#[test]
fn two_edits_on_a_fresh_session_leave_one_entry() {
    let mut osm = EditorOsmData::default();
    let first = way(7, &[1, 2], &[("sidewalk", "left")]);
    let second = way(7, &[1, 2], &[("sidewalk", "both")]);
    osm.apply_change(Change::UpdateWay(7, first));
    osm.apply_change(Change::UpdateWay(7, second));
    assert_eq!(osm.changes.len(), 1);
    match &osm.changes[0] {
        Change::UpdateWay(id, w) => {
            assert_eq!(*id, 7);
            assert_eq!(w.nodes, vec![1, 2]);
            assert_eq!(w.tags.len(), 1);
            assert_eq!(w.tags.get("sidewalk").map(String::as_str), Some("both"));
        }
    }
    let stored = osm.data.way(7).unwrap();
    assert_eq!(stored.tags.len(), 1);
    assert_eq!(stored.tags.get("sidewalk").map(String::as_str), Some("both"));
    assert!(!osm.data.is_closed());
}

#[test]
fn an_area_with_repeated_neighbouring_corners_gets_its_mesh() {
    let mut d = OsmData::new();
    // nodes 2 and 3 fall on one pixel, and so do 5 and 1
    for (id, lat, lon) in [(1, 0, 0), (2, 0, 10), (3, 0, 10), (4, 10, 10), (5, 0, 0), (6, 10, 0)] {
        assert!(d.insert_node(node(id, lat, lon)));
    }
    assert!(d.insert_way(way(500, &[1, 2, 3, 4, 6, 5, 1], &[("building", "yes")])));
    let mut osm = bank(d, (-100, -100), (100, 100));
    refresh_all(&mut osm);
    assert_eq!(osm.way_area.areas, vec![500]);
    assert_eq!(osm.way_mesh.len(), 1);
    let mesh = &osm.way_mesh[&500];
    assert_eq!(mesh.indices.len(), 6);
    assert_eq!(mesh.vertices.len(), 4);
    assert_eq!(osm.area_size_of(&500).map(i128::abs), Some(100));
}

#[test]
fn an_area_with_a_corner_a_hair_from_an_edge_gets_no_mesh() {
    let mut d = OsmData::new();
    // the edge from 1 to 2 passes node 3 a twentieth of a pixel beside it
    for (id, lat, lon) in [(1, 0, 0), (2, 20, 1), (3, 1, 0)] {
        assert!(d.insert_node(node(id, lat, lon)));
    }
    assert!(d.insert_way(way(500, &[1, 2, 3, 1], &[("building", "yes")])));
    // the same a seventeenth of a pixel beside it
    for (id, lat, lon) in [(4, 0, 50), (5, 17, 51), (6, 1, 50)] {
        assert!(d.insert_node(node(id, lat, lon)));
    }
    assert!(d.insert_way(way(501, &[4, 5, 6, 4], &[("building", "yes")])));
    let mut osm = bank(d, (-100, -100), (200, 200));
    refresh_all(&mut osm);
    assert_eq!(sorted(osm.way_area.areas.clone()), vec![500, 501]);
    assert_eq!(osm.way_mesh.len(), 1);
    assert_eq!(osm.way_mesh[&501].indices.len(), 3);
    // two areas of one size keep the order in which they are listed
    assert_eq!(osm.area_ids_in_paint_order(), osm.way_area.areas);
    assert_eq!(osm.area_size_of(&500).map(i128::abs), Some(1));
    assert_eq!(osm.area_size_of(&501).map(i128::abs), Some(1));
}

#[test]
fn half_a_square_pixel_decides_the_paint_order() {
    let mut d = OsmData::new();
    // a triangle of seven and a half square pixels, and a rectangle of eight
    for (id, lat, lon) in [(1, 0, 0), (2, 0, 5), (3, 3, 0)] {
        assert!(d.insert_node(node(id, lat, lon)));
    }
    assert!(d.insert_way(way(600, &[1, 2, 3, 1], &[("building", "yes")])));
    for (id, lat, lon) in [(4, 10, 10), (5, 10, 14), (6, 12, 14), (7, 12, 10)] {
        assert!(d.insert_node(node(id, lat, lon)));
    }
    assert!(d.insert_way(way(601, &[4, 5, 6, 7, 4], &[("building", "yes")])));
    // and a triangle of eight and a half
    for (id, lat, lon) in [(8, 20, 20), (9, 20, 37), (10, 21, 20)] {
        assert!(d.insert_node(node(id, lat, lon)));
    }
    assert!(d.insert_way(way(602, &[8, 9, 10, 8], &[("building", "yes")])));
    let mut osm = bank(d, (-100, -100), (100, 100));
    refresh_all(&mut osm);
    assert_eq!(sorted(osm.way_area.areas.clone()), vec![600, 601, 602]);
    assert_eq!(osm.area_ids_in_paint_order(), vec![602, 601, 600]);
    assert_eq!(osm.area_size_of(&600).map(i128::abs), Some(8));
    assert_eq!(osm.area_size_of(&601).map(i128::abs), Some(8));
    assert_eq!(osm.area_size_of(&602).map(i128::abs), Some(9));
}
