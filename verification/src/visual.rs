//! What is drawn and how: the visualizations, the fill modes, and the
//! edits that the sidewalk visualization makes.

use crate::attribute2d::{attribute_tags, Attribute2D};
use crate::cache::{Change, ChangeView};
use crate::data::{Way, WayView};
use crate::geometry::Pos2;
use crate::tags::{str_eq, value_of, with_tag, without_tag, TagSeq, Tags};
use vstd::prelude::*;

verus! {

/// A way of looking at the map.
#[derive(Debug, Clone, Copy, PartialEq, Eq, Structural)]
pub enum Visualization {
    Default,
    Sidewalks,
}

impl Default for Visualization {
    fn default() -> (r: Self)
        ensures
            r == Visualization::Default,
    {
        Visualization::Default
    }
}

/// How areas are filled.
#[derive(Debug, Clone, Copy, PartialEq, Eq, Structural)]
pub enum FillMode {
    Wireframe,
    Partial,
    Full,
}

impl Default for FillMode {
    fn default() -> (r: Self)
        ensures
            r == FillMode::Partial,
    {
        FillMode::Partial
    }
}

impl FillMode {
    /// The mode in which a frame fills: partial fill becomes full fill
    /// where the map is zoomed out beyond the threshold of the partial fill.
    pub fn effective(self, below_partial_threshold: bool) -> (r: Self)
        ensures
            r == if self == FillMode::Partial && below_partial_threshold {
                FillMode::Full
            } else {
                self
            },
    {
        match self {
            FillMode::Partial => if below_partial_threshold {
                FillMode::Full
            } else {
                FillMode::Partial
            },
            FillMode::Wireframe => FillMode::Wireframe,
            FillMode::Full => FillMode::Full,
        }
    }

    /// The mode after the wireframe key: out of wireframe into partial
    /// fill, out of any fill into wireframe.
    pub fn toggled_wireframe(self) -> (r: Self)
        ensures
            r == (match self {
                FillMode::Wireframe => FillMode::Partial,
                FillMode::Partial => FillMode::Wireframe,
                FillMode::Full => FillMode::Wireframe,
            }),
    {
        match self {
            FillMode::Wireframe => FillMode::Partial,
            FillMode::Partial | FillMode::Full => FillMode::Wireframe,
        }
    }
}

/// The grey in which the icons are tinted: light on a dark theme, dark on
/// a light one.
pub fn tint(dark: bool) -> (r: u8)
    ensures
        r == if dark {
            222u8
        } else {
            22u8
        },
{
    if dark {
        222
    } else {
        22
    }
}

/// How wide a way is drawn.
#[derive(Debug, Clone, Copy, PartialEq, Eq, Structural)]
pub enum WayWidth {
    Way,
    Path,
    ServiceRoad,
    MinorRoad,
    MajorRoad,
    Building,
}

/// In which colour a way is drawn.
#[derive(Debug, Clone, Copy, PartialEq, Eq, Structural)]
pub enum WayColor {
    Way,
    Building,
    Path,
    Footway,
    Steps,
    Track,
    Road,
}

/// The width that goes with a kind of road.
pub open spec fn highway_width(highway: Seq<char>) -> WayWidth {
    if highway == "path"@ || highway == "footway"@ || highway == "steps"@ {
        WayWidth::Path
    } else if highway == "service"@ || highway == "track"@ {
        WayWidth::ServiceRoad
    } else if highway == "residential"@ {
        WayWidth::MinorRoad
    } else if highway == "tertiary"@ || highway == "secondary"@ || highway == "primary"@ || highway
        == "trunk"@ || highway == "motorway"@ || highway == "tertiary_link"@ || highway
        == "secondary_link"@ || highway == "primary_link"@ || highway == "trunk_link"@ || highway
        == "motorway_link"@ {
        WayWidth::MajorRoad
    } else {
        WayWidth::Way
    }
}

/// The width of a way with the tags `tags`: that of a building where
/// the way is one, else that of its kind of road.
pub open spec fn width_of(tags: TagSeq) -> WayWidth {
    match value_of(tags, "building"@) {
        Some(building) => if building == "no"@ {
            WayWidth::Way
        } else {
            WayWidth::Building
        },
        None => match value_of(tags, "highway"@) {
            Some(highway) => highway_width(highway),
            None => WayWidth::Way,
        },
    }
}

/// How wide `w` is drawn.
pub fn width_default(w: &Way) -> (r: WayWidth)
    ensures
        r == width_of(w@.tags),
{
    match w.tags.get("building") {
        Some(building) => if str_eq(building.as_str(), "no") {
            WayWidth::Way
        } else {
            WayWidth::Building
        },
        None => match w.tags.get("highway") {
            Some(highway) => {
                let h = highway.as_str();
                if str_eq(h, "path") || str_eq(h, "footway") || str_eq(h, "steps") {
                    WayWidth::Path
                } else if str_eq(h, "service") || str_eq(h, "track") {
                    WayWidth::ServiceRoad
                } else if str_eq(h, "residential") {
                    WayWidth::MinorRoad
                } else if str_eq(h, "tertiary") || str_eq(h, "secondary") || str_eq(h, "primary")
                    || str_eq(h, "trunk") || str_eq(h, "motorway") || str_eq(h, "tertiary_link")
                    || str_eq(h, "secondary_link") || str_eq(h, "primary_link") || str_eq(
                    h,
                    "trunk_link",
                ) || str_eq(h, "motorway_link") {
                    WayWidth::MajorRoad
                } else {
                    WayWidth::Way
                }
            },
            None => WayWidth::Way,
        },
    }
}

/// The colour that goes with a kind of road.
pub open spec fn highway_color(highway: Seq<char>) -> WayColor {
    if highway == "path"@ {
        WayColor::Path
    } else if highway == "footway"@ {
        WayColor::Footway
    } else if highway == "steps"@ {
        WayColor::Steps
    } else if highway == "track"@ {
        WayColor::Track
    } else {
        WayColor::Road
    }
}

/// The colour of a way with the tags `tags`: that of a building where
/// the way is one, else that of its kind of road.
pub open spec fn color_of(tags: TagSeq) -> WayColor {
    match value_of(tags, "building"@) {
        Some(building) => if building == "no"@ {
            WayColor::Way
        } else {
            WayColor::Building
        },
        None => match value_of(tags, "highway"@) {
            Some(highway) => highway_color(highway),
            None => WayColor::Way,
        },
    }
}

/// In which colour `w` is drawn.
pub fn color_default(w: &Way) -> (r: WayColor)
    ensures
        r == color_of(w@.tags),
{
    match w.tags.get("building") {
        Some(building) => if str_eq(building.as_str(), "no") {
            WayColor::Way
        } else {
            WayColor::Building
        },
        None => match w.tags.get("highway") {
            Some(highway) => {
                let h = highway.as_str();
                if str_eq(h, "path") {
                    WayColor::Path
                } else if str_eq(h, "footway") {
                    WayColor::Footway
                } else if str_eq(h, "steps") {
                    WayColor::Steps
                } else if str_eq(h, "track") {
                    WayColor::Track
                } else {
                    WayColor::Road
                }
            },
            None => WayColor::Way,
        },
    }
}

/// The outline along which the partial fill of an area is drawn: the
/// corners of the area without the first, in the order in which the area
/// turns one way; none for an area without size.
pub open spec fn partial_fill_outline(points: Seq<Pos2>, area: int) -> Option<Seq<Pos2>> {
    if area > 0 {
        Some(without_first(points))
    } else if area < 0 {
        Some(without_first(points.reverse()))
    } else {
        None
    }
}

/// `points` without its first point.
pub open spec fn without_first(points: Seq<Pos2>) -> Seq<Pos2> {
    if points.len() == 0 {
        points
    } else {
        points.skip(1)
    }
}

/// The outline along which the partial fill of an area with the corners
/// `points` and the signed area `area` is drawn.
pub fn partial_fill_points(points: &Vec<Pos2>, area: i128) -> (r: Option<Vec<Pos2>>)
    ensures
        r.is_some() == partial_fill_outline(points@, area as int).is_some(),
        r matches Some(v) ==> Some(v@) == partial_fill_outline(points@, area as int),
{
    let n = points.len();
    if area == 0 {
        return None;
    }
    let mut v: Vec<Pos2> = Vec::new();
    if n == 0 {
        assert(points@.reverse() =~= points@);
        assert(v@ =~= points@);
        return Some(v);
    }
    let mut i: usize = 1;
    if area > 0 {
        while i < n
            invariant
                1 <= i <= n,
                n == points@.len(),
                v@ == points@.skip(1).take(i - 1),
            decreases n - i,
        {
            v.push(points[i]);
            assert(v@ =~= points@.skip(1).take(i as int));
            i = i + 1;
        }
        assert(points@.skip(1).take(n - 1) =~= points@.skip(1));
    } else {
        while i < n
            invariant
                1 <= i <= n,
                n == points@.len(),
                v@ == points@.reverse().skip(1).take(i - 1),
            decreases n - i,
        {
            v.push(points[n - 1 - i]);
            assert(v@ =~= points@.reverse().skip(1).take(i as int));
            i = i + 1;
        }
        assert(points@.reverse().skip(1).take(n - 1) =~= points@.reverse().skip(1));
    }
    Some(v)
}

/// A road of the kind `highway` is one that can have a sidewalk.
pub open spec fn highway_with_sidewalk(highway: Seq<char>) -> bool {
    ||| highway == "unclassified"@
    ||| highway == "residential"@
    ||| highway == "living_street"@
    ||| highway == "pedestrian"@
    ||| highway == "service"@
    ||| highway == "motorway"@
    ||| highway == "trunk"@
    ||| highway == "primary"@
    ||| highway == "secondary"@
    ||| highway == "tertiary"@
    ||| highway == "motorway_link"@
    ||| highway == "trunk_link"@
    ||| highway == "primary_link"@
    ||| highway == "secondary_link"@
    ||| highway == "tertiary_link"@
}

fn is_highway_with_sidewalk(highway: &str) -> (r: bool)
    ensures
        r == highway_with_sidewalk(highway@),
{
    str_eq(highway, "unclassified") || str_eq(highway, "residential") || str_eq(
        highway,
        "living_street",
    ) || str_eq(highway, "pedestrian") || str_eq(highway, "service") || str_eq(highway, "motorway")
        || str_eq(highway, "trunk") || str_eq(highway, "primary") || str_eq(highway, "secondary")
        || str_eq(highway, "tertiary") || str_eq(highway, "motorway_link") || str_eq(
        highway,
        "trunk_link",
    ) || str_eq(highway, "primary_link") || str_eq(highway, "secondary_link") || str_eq(
        highway,
        "tertiary_link",
    )
}

/// Whether the sidewalk visualization has something to show for a way
/// with these tags: it is a road that can have a sidewalk.
pub fn sidewalks_relevant(tags: &Tags) -> (r: bool)
    ensures
        r == (match value_of(tags@, "highway"@) {
            Some(highway) => highway_with_sidewalk(highway),
            None => false,
        }),
{
    match tags.get("highway") {
        Some(highway) => is_highway_with_sidewalk(highway.as_str()),
        None => false,
    }
}

/// `into` with each tag of `from` written into it, in order.
pub open spec fn merged_tags(into: TagSeq, from: TagSeq) -> TagSeq
    decreases from.len(),
{
    if from.len() == 0 {
        into
    } else {
        let rest = merged_tags(into, from.drop_last());
        with_tag(rest, from.last().0, from.last().1)
    }
}

/// Writes each tag of `from` into `into`; a key that `into` has takes the
/// value that `from` has for it.
pub fn merge_tags(into: &mut Tags, from: &Tags)
    ensures
        final(into)@ == merged_tags(old(into)@, from@),
        old(into).wf() ==> final(into).wf(),
{
    let n = from.len();
    let mut i: usize = 0;
    while i < n
        invariant
            i <= n,
            n == from@.len(),
            into@ == merged_tags(old(into)@, from@.take(i as int)),
            old(into).wf() ==> into.wf(),
        decreases n - i,
    {
        proof {
            assert(from@.take(i + 1).drop_last() =~= from@.take(i as int));
        }
        into.insert(from.key_at(i).clone(), from.value_at(i).clone());
        i = i + 1;
    }
    assert(from@.take(n as int) =~= from@);
}

/// The tags of a way after its sidewalks are set to `attr`: the four
/// sidewalk tags go, and the tags that say what `attr` says come in.
pub open spec fn sidewalk_tags(tags: TagSeq, attr: Attribute2D) -> TagSeq {
    merged_tags(
        without_tag(
            without_tag(
                without_tag(without_tag(tags, "sidewalk"@), "sidewalk:left"@),
                "sidewalk:right"@,
            ),
            "sidewalk:both"@,
        ),
        attribute_tags(attr, "sidewalk"@),
    )
}

/// The edit that sets the sidewalks of `way` to `attr`.
pub fn sidewalk_change(way: &Way, attr: Attribute2D) -> (r: Change)
    ensures
        r@ == ChangeView::UpdateWay(
            way.id,
            WayView { tags: sidewalk_tags(way@.tags, attr), ..way@ },
        ),
        way.tags.wf() ==> crate::tags::unique_keys(r@.way().tags),
{
    let mut new_way = way.clone();
    let sidewalk_tags = attr.into_tags("sidewalk");
    new_way.tags.remove("sidewalk");
    new_way.tags.remove("sidewalk:left");
    new_way.tags.remove("sidewalk:right");
    new_way.tags.remove("sidewalk:both");
    merge_tags(&mut new_way.tags, &sidewalk_tags);
    Change::UpdateWay(new_way.id, new_way)
}

} // verus!
