use walkers_editor::attribute2d::{Attribute2D, TagSuffix, TagValue};
use walkers_editor::cache::Change;
use walkers_editor::data::Way;
use walkers_editor::geometry::Pos2;
use walkers_editor::tags::Tags;
use walkers_editor::visual::{
    color_default, merge_tags, partial_fill_points, sidewalk_change, sidewalks_relevant, tint,
    width_default, FillMode, Visualization, WayColor, WayWidth,
};

fn tags(pairs: &[(&str, &str)]) -> Tags {
    let mut t = Tags::new();
    for (k, v) in pairs {
        t.insert(k.to_string(), v.to_string());
    }
    t
}

fn pairs(t: &Tags) -> Vec<(String, String)> {
    (0..t.len()).map(|i| (t.key_at(i).clone(), t.value_at(i).clone())).collect()
}

fn strs(v: &[(&str, &str)]) -> Vec<(String, String)> {
    v.iter().map(|(k, v)| (k.to_string(), v.to_string())).collect()
}

fn way(t: &[(&str, &str)]) -> Way {
    Way { id: 9, nodes: vec![1, 2], tags: tags(t), changeset: 3, version: 4 }
}

fn attr(left: TagValue, right: TagValue) -> Attribute2D {
    Attribute2D { left, right }
}

#[test]
fn tag_value_from_text() {
    assert_eq!(TagValue::from("yes"), TagValue::Yes);
    assert_eq!(TagValue::from("no"), TagValue::No);
    assert_eq!(TagValue::from("none"), TagValue::No);
    assert_eq!(TagValue::from("separate"), TagValue::Separate);
    assert_eq!(TagValue::from("Yes"), TagValue::Unknown);
    assert_eq!(TagValue::from(""), TagValue::Unknown);
    assert_eq!(TagValue::from("both"), TagValue::Unknown);
    assert_eq!(TagValue::default(), TagValue::Unknown);
}

#[test]
fn tag_value_to_text() {
    assert_eq!(TagValue::Yes.as_str(), "yes");
    assert_eq!(TagValue::No.as_str(), "no");
    assert_eq!(TagValue::Separate.as_str(), "separate");
    assert_eq!(TagValue::Unknown.as_str(), "unknown");
    assert_eq!(TagValue::Separate.to_string(), "separate");
}

#[test]
fn tag_suffix_from_text() {
    assert_eq!(TagSuffix::from("left"), TagSuffix::Left);
    assert_eq!(TagSuffix::from("right"), TagSuffix::Right);
    assert_eq!(TagSuffix::from("both"), TagSuffix::Both);
    assert_eq!(TagSuffix::from("separate"), TagSuffix::Separate);
    assert_eq!(TagSuffix::from("no"), TagSuffix::No);
    assert_eq!(TagSuffix::from("none"), TagSuffix::No);
    assert_eq!(TagSuffix::from("yes"), TagSuffix::Unknown);
    assert_eq!(TagSuffix::from(""), TagSuffix::Unknown);
    assert_eq!(TagSuffix::default(), TagSuffix::Unknown);
}

#[test]
fn attribute_from_suffix() {
    assert_eq!(Attribute2D::from(TagSuffix::Left), attr(TagValue::Yes, TagValue::No));
    assert_eq!(Attribute2D::from(TagSuffix::Right), attr(TagValue::No, TagValue::Yes));
    assert_eq!(Attribute2D::from(TagSuffix::Both), attr(TagValue::Yes, TagValue::Yes));
    assert_eq!(Attribute2D::from(TagSuffix::Separate), attr(TagValue::Separate, TagValue::Separate));
    assert_eq!(Attribute2D::from(TagSuffix::No), attr(TagValue::No, TagValue::No));
    assert_eq!(Attribute2D::from(TagSuffix::Unknown), attr(TagValue::Unknown, TagValue::Unknown));
    assert_eq!(Attribute2D::default(), attr(TagValue::Unknown, TagValue::Unknown));
}

#[test]
fn attribute_read_from_tags() {
    let read = |t: &[(&str, &str)]| Attribute2D::new(&tags(t), "sidewalk");
    assert_eq!(read(&[]), attr(TagValue::Unknown, TagValue::Unknown));
    assert_eq!(read(&[("sidewalk", "left")]), attr(TagValue::Yes, TagValue::No));
    assert_eq!(read(&[("sidewalk", "nonsense")]), attr(TagValue::Unknown, TagValue::Unknown));
    assert_eq!(
        read(&[("sidewalk", "left"), ("sidewalk:right", "separate")]),
        attr(TagValue::Yes, TagValue::Separate)
    );
    assert_eq!(
        read(&[("sidewalk:left", "no"), ("sidewalk:right", "yes")]),
        attr(TagValue::No, TagValue::Yes)
    );
    assert_eq!(read(&[("sidewalk:left", "none")]), attr(TagValue::No, TagValue::Unknown));
    // the tag for both sides overrules the others
    assert_eq!(
        read(&[("sidewalk:both", "yes"), ("sidewalk:left", "no"), ("sidewalk", "no")]),
        attr(TagValue::Yes, TagValue::Yes)
    );
    assert_eq!(
        read(&[("sidewalk:both", "what"), ("sidewalk:left", "no")]),
        attr(TagValue::Unknown, TagValue::Unknown)
    );
}

#[test]
fn attribute_of_another_tag_still_reads_the_sidewalk_tag() {
    let t = tags(&[("sidewalk", "both"), ("cycleway:left", "no"), ("sidewalk:right", "no")]);
    assert_eq!(Attribute2D::new(&t, "cycleway"), attr(TagValue::No, TagValue::Yes));
}

#[test]
fn attribute_written_as_tags() {
    let write = |l, r| pairs(&attr(l, r).into_tags("sidewalk"));
    assert_eq!(write(TagValue::Yes, TagValue::Yes), strs(&[("sidewalk:both", "yes")]));
    assert_eq!(write(TagValue::No, TagValue::No), strs(&[("sidewalk:both", "no")]));
    assert_eq!(write(TagValue::Separate, TagValue::Separate), strs(&[("sidewalk:both", "separate")]));
    assert_eq!(write(TagValue::Unknown, TagValue::Unknown), strs(&[]));
    assert_eq!(
        write(TagValue::Yes, TagValue::No),
        strs(&[("sidewalk:left", "yes"), ("sidewalk:right", "no")])
    );
    assert_eq!(write(TagValue::Yes, TagValue::Unknown), strs(&[("sidewalk:left", "yes")]));
    assert_eq!(write(TagValue::Unknown, TagValue::Separate), strs(&[("sidewalk:right", "separate")]));
    assert_eq!(
        pairs(&attr(TagValue::No, TagValue::Yes).into_tags("cycleway")),
        strs(&[("cycleway:left", "no"), ("cycleway:right", "yes")])
    );
}

#[test]
fn written_and_read_back() {
    for l in [TagValue::Yes, TagValue::No, TagValue::Separate, TagValue::Unknown] {
        for r in [TagValue::Yes, TagValue::No, TagValue::Separate, TagValue::Unknown] {
            let a = attr(l, r);
            assert_eq!(Attribute2D::new(&a.into_tags("sidewalk"), "sidewalk"), a);
        }
    }
}

#[test]
fn merge_writes_each_tag() {
    let mut into = tags(&[("a", "1"), ("b", "2")]);
    merge_tags(&mut into, &tags(&[("b", "two"), ("c", "3")]));
    assert_eq!(pairs(&into), strs(&[("a", "1"), ("b", "two"), ("c", "3")]));
    merge_tags(&mut into, &Tags::new());
    assert_eq!(pairs(&into), strs(&[("a", "1"), ("b", "two"), ("c", "3")]));
}

#[test]
fn sidewalk_edit_replaces_the_sidewalk_tags() {
    let w = way(&[
        ("highway", "residential"),
        ("sidewalk", "both"),
        ("name", "Elm Road"),
        ("sidewalk:left", "no"),
        ("sidewalk:both", "yes"),
        ("sidewalk:right", "no"),
    ]);
    match sidewalk_change(&w, attr(TagValue::Yes, TagValue::Separate)) {
        Change::UpdateWay(id, new_way) => {
            assert_eq!(id, 9);
            assert_eq!(new_way.id, 9);
            assert_eq!(new_way.nodes, vec![1, 2]);
            assert_eq!(new_way.changeset, 3);
            assert_eq!(new_way.version, 4);
            assert_eq!(
                pairs(&new_way.tags),
                strs(&[
                    ("highway", "residential"),
                    ("name", "Elm Road"),
                    ("sidewalk:left", "yes"),
                    ("sidewalk:right", "separate"),
                ])
            );
        }
    }
    match sidewalk_change(&w, attr(TagValue::Unknown, TagValue::Unknown)) {
        Change::UpdateWay(_, new_way) => {
            assert_eq!(pairs(&new_way.tags), strs(&[("highway", "residential"), ("name", "Elm Road")]));
        }
    }
    match sidewalk_change(&way(&[]), attr(TagValue::No, TagValue::No)) {
        Change::UpdateWay(_, new_way) => {
            assert_eq!(pairs(&new_way.tags), strs(&[("sidewalk:both", "no")]));
        }
    }
}

#[test]
fn sidewalks_matter_on_roads() {
    for h in [
        "unclassified",
        "residential",
        "living_street",
        "pedestrian",
        "service",
        "motorway",
        "trunk",
        "primary",
        "secondary",
        "tertiary",
        "motorway_link",
        "trunk_link",
        "primary_link",
        "secondary_link",
        "tertiary_link",
    ] {
        assert!(sidewalks_relevant(&tags(&[("highway", h)])), "{}", h);
    }
    for h in ["footway", "path", "steps", "track", "cycleway", "", "Residential"] {
        assert!(!sidewalks_relevant(&tags(&[("highway", h)])), "{}", h);
    }
    assert!(!sidewalks_relevant(&tags(&[])));
    assert!(!sidewalks_relevant(&tags(&[("building", "yes")])));
}

#[test]
fn widths_by_tags() {
    let w = |t: &[(&str, &str)]| width_default(&way(t));
    assert_eq!(w(&[]), WayWidth::Way);
    assert_eq!(w(&[("building", "yes")]), WayWidth::Building);
    assert_eq!(w(&[("building", "house"), ("highway", "primary")]), WayWidth::Building);
    assert_eq!(w(&[("building", "no")]), WayWidth::Way);
    assert_eq!(w(&[("building", "no"), ("highway", "primary")]), WayWidth::Way);
    assert_eq!(w(&[("highway", "path")]), WayWidth::Path);
    assert_eq!(w(&[("highway", "footway")]), WayWidth::Path);
    assert_eq!(w(&[("highway", "steps")]), WayWidth::Path);
    assert_eq!(w(&[("highway", "service")]), WayWidth::ServiceRoad);
    assert_eq!(w(&[("highway", "track")]), WayWidth::ServiceRoad);
    assert_eq!(w(&[("highway", "residential")]), WayWidth::MinorRoad);
    for h in [
        "tertiary",
        "secondary",
        "primary",
        "trunk",
        "motorway",
        "tertiary_link",
        "secondary_link",
        "primary_link",
        "trunk_link",
        "motorway_link",
    ] {
        assert_eq!(w(&[("highway", h)]), WayWidth::MajorRoad, "{}", h);
    }
    assert_eq!(w(&[("highway", "unclassified")]), WayWidth::Way);
    assert_eq!(w(&[("highway", "cycleway")]), WayWidth::Way);
}

#[test]
fn colours_by_tags() {
    let c = |t: &[(&str, &str)]| color_default(&way(t));
    assert_eq!(c(&[]), WayColor::Way);
    assert_eq!(c(&[("building", "yes")]), WayColor::Building);
    assert_eq!(c(&[("building", "no"), ("highway", "path")]), WayColor::Way);
    assert_eq!(c(&[("highway", "path")]), WayColor::Path);
    assert_eq!(c(&[("highway", "footway")]), WayColor::Footway);
    assert_eq!(c(&[("highway", "steps")]), WayColor::Steps);
    assert_eq!(c(&[("highway", "track")]), WayColor::Track);
    assert_eq!(c(&[("highway", "primary")]), WayColor::Road);
    assert_eq!(c(&[("highway", "")]), WayColor::Road);
}

#[test]
fn fill_modes() {
    assert_eq!(FillMode::default(), FillMode::Partial);
    assert_eq!(Visualization::default(), Visualization::Default);
    assert_eq!(FillMode::Wireframe.toggled_wireframe(), FillMode::Partial);
    assert_eq!(FillMode::Partial.toggled_wireframe(), FillMode::Wireframe);
    assert_eq!(FillMode::Full.toggled_wireframe(), FillMode::Wireframe);
    assert_eq!(FillMode::Partial.effective(true), FillMode::Full);
    assert_eq!(FillMode::Partial.effective(false), FillMode::Partial);
    assert_eq!(FillMode::Wireframe.effective(true), FillMode::Wireframe);
    assert_eq!(FillMode::Full.effective(false), FillMode::Full);
}

#[test]
fn partial_fill_follows_the_turn_of_the_area() {
    let p = |v: &[(i32, i32)]| v.iter().map(|(x, y)| Pos2::new(*x, *y)).collect::<Vec<Pos2>>();
    let square = p(&[(0, 0), (1, 0), (1, 1), (0, 1), (0, 0)]);
    assert_eq!(partial_fill_points(&square, 2), Some(p(&[(1, 0), (1, 1), (0, 1), (0, 0)])));
    assert_eq!(partial_fill_points(&square, -2), Some(p(&[(0, 1), (1, 1), (1, 0), (0, 0)])));
    assert_eq!(partial_fill_points(&square, 0), None);
    assert_eq!(partial_fill_points(&p(&[(5, 5)]), 1), Some(vec![]));
    assert_eq!(partial_fill_points(&p(&[(5, 5)]), -1), Some(vec![]));
    assert_eq!(partial_fill_points(&p(&[]), 3), Some(vec![]));
    assert_eq!(partial_fill_points(&p(&[]), -3), Some(vec![]));
    assert_eq!(partial_fill_points(&p(&[]), 0), None);
}

#[test]
fn icons_are_light_on_dark_and_dark_on_light() {
    assert_eq!(tint(true), 222);
    assert_eq!(tint(false), 22);
}
