use walkers_editor::cache::{Color32, EditorOsmData};
use walkers_editor::data::{Coordinate, Node, OsmData, Way};
use walkers_editor::editor::{has_drifted, FrameOutcome};
use walkers_editor::geometry::{Pos2, Vec2};
use walkers_editor::osm::Bbox;
use walkers_editor::states::CacheFlag;
use walkers_editor::tags::Tags;
use walkers_editor::visual::FillMode;

fn node(id: u64, lat: i32, lon: i32) -> Node {
    Node { id, pos: Coordinate::new(lat, lon), tags: Tags::new(), changeset: 1, version: 1 }
}

fn way(id: u64, nodes: &[u64], tags: &[(&str, &str)]) -> Way {
    let mut t = Tags::new();
    for (k, v) in tags {
        t.insert(k.to_string(), v.to_string());
    }
    Way { id, nodes: nodes.to_vec(), tags: t, changeset: 1, version: 1 }
}

fn project(c: Coordinate) -> Pos2 {
    Pos2::new(c.lon, c.lat)
}

fn wide() -> Bbox {
    Bbox { left: -1000, bottom: -1000, right: 1000, top: 1000 }
}

fn square_store() -> OsmData {
    let mut d = OsmData::new();
    assert!(d.insert_node(node(1, 0, 0)));
    assert!(d.insert_node(node(2, 0, 1)));
    assert!(d.insert_node(node(3, 1, 1)));
    assert!(d.insert_node(node(4, 1, 0)));
    assert!(d.insert_way(way(10, &[1, 2, 3, 4, 1], &[("building", "yes")])));
    d
}

#[test]
fn unit_square_building_is_an_area_with_two_triangles() {
    let mut osm = EditorOsmData::new();
    osm.receive_map(square_store());
    let outcome = osm.update(&project, Coordinate::new(0, 0), wide());
    assert_eq!(outcome, FrameOutcome::Invalidated);
    assert_eq!(osm.way_area.areas, vec![10]);
    assert!(osm.way_area.ways.is_empty());
    let area = *osm.area_size_ordered.get(&10).unwrap();
    assert_eq!(area.abs(), 1);
    assert_eq!(osm.way_mesh.len(), 1);
    let mesh = osm.get_way_mesh(&10, Color32 { r: 1, g: 2, b: 3, a: 4 });
    assert_eq!(mesh.indices.len(), 6);
    assert_eq!(mesh.vertices.len(), 4);
    for v in &mesh.vertices {
        assert_eq!(v.color, Color32 { r: 1, g: 2, b: 3, a: 4 });
        assert!(v.pos.x == 0 || v.pos.x == 1);
        assert!(v.pos.y == 0 || v.pos.y == 1);
    }
    for i in &mesh.indices {
        assert!((*i as usize) < mesh.vertices.len());
    }
}

#[test]
fn two_orphans_at_one_position_leave_one() {
    let mut d = OsmData::new();
    assert!(d.insert_node(node(1, 5, 5)));
    assert!(d.insert_node(node(2, 5, 5)));
    assert!(d.insert_node(node(3, 6, 5)));
    let mut osm = EditorOsmData::new();
    osm.receive_map(d);
    osm.update(&project, Coordinate::new(0, 0), wide());
    let mut orphans = osm.orphan_nodes.clone();
    orphans.sort();
    assert_eq!(orphans, vec![1, 2, 3]);
    let kept = &osm.node_dedup.orphan_nodes;
    assert_eq!(kept.len(), 2);
    assert!(kept.contains(&3));
    assert!(kept.contains(&1) != kept.contains(&2));
    // the survivor is the one that comes first among the orphans
    let first = osm.orphan_nodes.iter().find(|id| **id == 1 || **id == 2).unwrap();
    assert!(kept.contains(first));
}

#[test]
fn drift_of_one_pixel_moves_and_drift_of_five_hundred_invalidates() {
    let mut osm = EditorOsmData::new();
    osm.receive_map(square_store());
    assert_eq!(osm.update(&project, Coordinate::new(0, 0), wide()), FrameOutcome::Invalidated);
    assert!(osm.cache_flags.is_empty());
    let nodes_before = osm.nodes_in_view.clone();
    let projected_before = osm.get_projected_origin_pos(&3);

    let outcome = osm.update(&project, Coordinate::new(0, 1), wide());
    assert_eq!(outcome, FrameOutcome::Moved);
    assert!(osm.cache_flags.is_empty());
    assert_eq!(osm.nodes_in_view, nodes_before);
    assert_eq!(osm.view_start, Coordinate::new(0, 0));
    assert_eq!(osm.node_offset_move, Vec2::new(-1, 0));
    assert_eq!(osm.mesh_offset_move, Vec2::new(-1, 0));
    assert_eq!(osm.get_projected_origin_pos(&3), projected_before);
    assert_eq!(osm.get_projected_pos(&3), Some(Pos2::new(0, 1)));

    let outcome = osm.update(&project, Coordinate::new(0, 500), wide());
    assert_eq!(outcome, FrameOutcome::Invalidated);
    assert_eq!(osm.view_start, Coordinate::new(0, 500));
    assert_eq!(osm.node_start, Coordinate::new(0, 500));
    assert_eq!(osm.node_offset_move, Vec2::zero());
    assert_eq!(osm.mesh_offset_move, Vec2::zero());
    assert!(osm.cache_flags.is_empty());
}

#[test]
fn drift_threshold_is_one_hundred_pixels() {
    assert!(!has_drifted(Vec2::new(100, 0)));
    assert!(!has_drifted(Vec2::new(-100, 100)));
    assert!(has_drifted(Vec2::new(101, 0)));
    assert!(has_drifted(Vec2::new(0, -101)));
    assert!(!has_drifted(Vec2::new(1, 0)));
    assert!(has_drifted(Vec2::new(500, 0)));
}

#[test]
fn empty_store_never_invalidates() {
    let mut osm = EditorOsmData::new();
    osm.request_view_refresh();
    assert_eq!(osm.update(&project, Coordinate::new(0, 0), wide()), FrameOutcome::Moved);
    assert!(osm.refresh_in_view_flag);
}

#[test]
fn requested_refresh_invalidates_without_drift() {
    let mut osm = EditorOsmData::new();
    osm.receive_map(square_store());
    osm.update(&project, Coordinate::new(0, 0), wide());
    assert_eq!(osm.update(&project, Coordinate::new(0, 0), wide()), FrameOutcome::Moved);
    osm.request_view_refresh();
    assert_eq!(osm.update(&project, Coordinate::new(0, 0), wide()), FrameOutcome::Invalidated);
    assert!(!osm.refresh_in_view_flag);
}

#[test]
fn coming_into_full_fill_marks_the_meshes() {
    let mut osm = EditorOsmData::new();
    osm.note_fill_mode(FillMode::Partial, FillMode::Wireframe);
    assert!(osm.cache_flags.is_empty());
    osm.note_fill_mode(FillMode::Full, FillMode::Full);
    assert!(osm.cache_flags.is_empty());
    osm.note_fill_mode(FillMode::Partial, FillMode::Full);
    assert!(osm.cache_flags.contains(CacheFlag::WayMeshAndAreaSize));
    assert!(!osm.cache_flags.contains(CacheFlag::WayArea));
}

#[test]
fn view_outside_the_features_holds_nothing() {
    let mut osm = EditorOsmData::new();
    osm.receive_map(square_store());
    let far = Bbox { left: 100, bottom: 100, right: 200, top: 200 };
    osm.update(&project, Coordinate::new(0, 0), far);
    assert!(osm.nodes_in_view.is_empty());
    assert!(osm.ways_in_view.is_empty());
    assert!(osm.way_area.areas.is_empty());
    assert_eq!(osm.area_size_ordered.len(), 0);
}

#[test]
fn a_new_view_drops_what_the_old_view_held() {
    let mut osm = EditorOsmData::new();
    osm.receive_map(square_store());
    osm.update(&project, Coordinate::new(0, 0), wide());
    assert_eq!(osm.area_ids_in_paint_order(), vec![10]);
    assert_eq!(osm.area_count(), 1);
    assert_eq!(osm.way_mesh.len(), 1);
    assert_eq!(osm.node_usage.len(), 4);

    osm.request_view_refresh();
    let far = Bbox { left: 100, bottom: 100, right: 200, top: 200 };
    assert_eq!(osm.update(&project, Coordinate::new(0, 0), far), FrameOutcome::Invalidated);
    assert!(osm.area_ids_in_paint_order().is_empty());
    assert_eq!(osm.area_count(), 0);
    assert_eq!(osm.area_size_of(&10), None);
    assert!(osm.way_mesh.is_empty());
    assert!(osm.node_usage.is_empty());
    assert!(osm.projected_nodes.is_empty());
    assert!(osm.way_area.areas.is_empty());
    assert!(osm.node_dedup.way_nodes.is_empty());
}

#[test]
fn a_frame_without_anything_pending_only_moves() {
    let mut osm = EditorOsmData::new();
    osm.receive_map(square_store());
    osm.update(&project, Coordinate::new(0, 0), wide());
    let order = osm.area_ids_in_paint_order();
    let projected = osm.projected_nodes.clone();
    for step in 1..=100 {
        assert_eq!(osm.update(&project, Coordinate::new(step, -step), wide()), FrameOutcome::Moved);
        assert_eq!(osm.node_offset_move, Vec2::new(step, -step));
        assert_eq!(osm.mesh_offset_move, Vec2::new(step, -step));
        assert_eq!(osm.get_projected_pos(&3), Some(Pos2::new(1 + step, 1 - step)));
    }
    assert_eq!(osm.projected_nodes, projected);
    assert_eq!(osm.area_ids_in_paint_order(), order);
    assert_eq!(osm.view_start, Coordinate::new(0, 0));
    // one step further and the view has drifted too far
    assert_eq!(osm.update(&project, Coordinate::new(101, 0), wide()), FrameOutcome::Invalidated);
}

#[test]
fn pending_meshes_are_made_in_a_frame_that_moves() {
    let mut osm = EditorOsmData::new();
    osm.receive_map(square_store());
    osm.update(&project, Coordinate::new(0, 0), wide());
    osm.note_fill_mode(FillMode::Partial, FillMode::Full);
    assert!(osm.cache_flags.contains(CacheFlag::WayMeshAndAreaSize));
    assert_eq!(osm.update(&project, Coordinate::new(0, 7), wide()), FrameOutcome::Moved);
    assert!(osm.cache_flags.is_empty());
    // the meshes start again where the view stands now, the nodes do not
    assert_eq!(osm.mesh_start, Coordinate::new(0, 7));
    assert_eq!(osm.mesh_offset_move, Vec2::zero());
    assert_eq!(osm.node_start, Coordinate::new(0, 0));
    assert_eq!(osm.node_offset_move, Vec2::new(-7, 0));
    assert_eq!(osm.way_mesh.len(), 1);
}
