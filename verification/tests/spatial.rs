use walkers_editor::data::{Coordinate, Node, OsmData, Way};
use walkers_editor::r_star::{Aabb, RStarOsmData};
use walkers_editor::tags::Tags;

fn node(id: u64, lat: i32, lon: i32) -> Node {
    Node { id, pos: Coordinate::new(lat, lon), tags: Tags::new(), changeset: 1, version: 1 }
}

fn way(id: u64, nodes: &[u64]) -> Way {
    Way { id, nodes: nodes.to_vec(), tags: Tags::new(), changeset: 1, version: 1 }
}

fn sorted(mut v: Vec<u64>) -> Vec<u64> {
    v.sort();
    v
}

fn grid() -> OsmData {
    // nodes 0..100 on a 10 x 10 grid with a spacing of 10
    let mut d = OsmData::new();
    for i in 0..10u64 {
        for j in 0..10u64 {
            assert!(d.insert_node(node(i * 10 + j, (i * 10) as i32, (j * 10) as i32)));
        }
    }
    d
}

#[test]
fn empty_index_finds_nothing() {
    let index = RStarOsmData::empty();
    let (nodes, ways) =
        index.query_envelope(Coordinate::new(i32::MIN, i32::MIN), Coordinate::new(i32::MAX, i32::MAX));
    assert!(nodes.is_empty());
    assert!(ways.is_empty());
    let index = RStarOsmData::from(&OsmData::new());
    let (nodes, ways) = index.query_envelope(Coordinate::new(-5, -5), Coordinate::new(5, 5));
    assert!(nodes.is_empty());
    assert!(ways.is_empty());
}

#[test]
fn node_query_is_exact_and_includes_the_border() {
    let index = RStarOsmData::from(&grid());
    let (nodes, _) = index.query_envelope(Coordinate::new(10, 20), Coordinate::new(30, 40));
    assert_eq!(sorted(nodes), vec![12, 13, 14, 22, 23, 24, 32, 33, 34]);
    let (nodes, _) = index.query_envelope(Coordinate::new(11, 21), Coordinate::new(29, 39));
    assert_eq!(sorted(nodes), vec![23]);
    let (nodes, _) = index.query_envelope(Coordinate::new(11, 21), Coordinate::new(19, 29));
    assert!(nodes.is_empty());
    let (nodes, _) = index.query_envelope(Coordinate::new(50, 50), Coordinate::new(50, 50));
    assert_eq!(nodes, vec![55]);
}

#[test]
fn corners_may_come_in_either_order() {
    let index = RStarOsmData::from(&grid());
    let (a, _) = index.query_envelope(Coordinate::new(30, 20), Coordinate::new(10, 40));
    let (b, _) = index.query_envelope(Coordinate::new(10, 40), Coordinate::new(30, 20));
    let (c, _) = index.query_envelope(Coordinate::new(10, 20), Coordinate::new(30, 40));
    assert_eq!(a, b);
    assert_eq!(a, c);
    assert_eq!(a.len(), 9);
}

#[test]
fn whole_range_finds_every_node_once() {
    let index = RStarOsmData::from(&grid());
    let (nodes, ways) =
        index.query_envelope(Coordinate::new(i32::MIN, i32::MIN), Coordinate::new(i32::MAX, i32::MAX));
    assert_eq!(sorted(nodes), (0..100).collect::<Vec<u64>>());
    assert!(ways.is_empty());
}

#[test]
fn way_query_goes_by_the_bounding_box() {
    let mut d = grid();
    // a diagonal whose box spans (0,0)-(90,90)
    assert!(d.insert_way(way(1000, &[0, 99])));
    // an L whose box spans (0,0)-(20,20) while its nodes lie on the border
    assert!(d.insert_way(way(1001, &[20, 0, 2])));
    // a way of one node
    assert!(d.insert_way(way(1002, &[55])));
    // a way without nodes is in no view
    assert!(d.insert_way(way(1003, &[])));
    let index = RStarOsmData::from(&d);

    // no node of 1000 or 1001 lies in this box, but the boxes intersect
    let (_, ways) = index.query_envelope(Coordinate::new(5, 5), Coordinate::new(15, 15));
    assert_eq!(sorted(ways), vec![1000, 1001]);

    let (_, ways) = index.query_envelope(Coordinate::new(50, 50), Coordinate::new(60, 60));
    assert_eq!(sorted(ways), vec![1000, 1002]);

    // touching counts
    let (_, ways) = index.query_envelope(Coordinate::new(20, 20), Coordinate::new(21, 21));
    assert_eq!(sorted(ways), vec![1000, 1001]);

    let (_, ways) = index.query_envelope(Coordinate::new(91, 0), Coordinate::new(95, 95));
    assert!(ways.is_empty());

    let (_, ways) =
        index.query_envelope(Coordinate::new(i32::MIN, i32::MIN), Coordinate::new(i32::MAX, i32::MAX));
    assert_eq!(sorted(ways), vec![1000, 1001, 1002]);
}

#[test]
fn large_store_is_queried_exactly() {
    let mut d = OsmData::new();
    let n = 5000u64;
    for i in 0..n {
        let lat = ((i * 7919) % 1000) as i32 - 500;
        let lon = ((i * 104729) % 1000) as i32 - 500;
        assert!(d.insert_node(node(i, lat, lon)));
    }
    let index = RStarOsmData::from(&d);
    let lo = Coordinate::new(-100, -50);
    let hi = Coordinate::new(37, 210);
    let (found, _) = index.query_envelope(lo, hi);
    let expected: Vec<u64> = (0..n)
        .filter(|i| {
            let p = d.node(*i).unwrap().pos;
            lo.lat <= p.lat && p.lat <= hi.lat && lo.lon <= p.lon && p.lon <= hi.lon
        })
        .collect();
    assert!(!expected.is_empty());
    assert_eq!(sorted(found), expected);
}

#[test]
fn extreme_coordinates_are_indexed() {
    let mut d = OsmData::new();
    assert!(d.insert_node(node(1, i32::MIN, i32::MIN)));
    assert!(d.insert_node(node(2, i32::MAX, i32::MAX)));
    assert!(d.insert_node(node(3, 0, 0)));
    assert!(d.insert_way(way(10, &[1, 2])));
    let index = RStarOsmData::from(&d);
    let (nodes, ways) = index.query_envelope(Coordinate::new(-1, -1), Coordinate::new(1, 1));
    assert_eq!(nodes, vec![3]);
    assert_eq!(ways, vec![10]);
    let (nodes, _) =
        index.query_envelope(Coordinate::new(i32::MAX, i32::MAX), Coordinate::new(i32::MAX, i32::MAX));
    assert_eq!(nodes, vec![2]);
}

#[test]
fn box_from_corners_and_extended() {
    let b = Aabb::from_corners(Coordinate::new(5, -3), Coordinate::new(-2, 7));
    assert_eq!(b.lower, Coordinate::new(-2, -3));
    assert_eq!(b.upper, Coordinate::new(5, 7));
    let e = b.extended(Coordinate::new(9, -9));
    assert_eq!(e.lower, Coordinate::new(-2, -9));
    assert_eq!(e.upper, Coordinate::new(9, 7));
    assert_eq!(b.extended(Coordinate::new(0, 0)), b);
}
