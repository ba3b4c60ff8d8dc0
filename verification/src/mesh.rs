//! Triangle meshes of filled areas, made by `lyon_tessellation`.
//!
//! The tessellator is run without its handling of intersections, and so it
//! is handed the polygons that it then asks for and no others: `tessellable`
//! says which. A polygon gets a mesh where
//!
//! - no coordinate is more than `MAX_MESH_COORDINATE` pixels, 2 to the power
//!   23, from the origin;
//! - it has three corners or more, no edge of length zero, and no two edges
//!   that touch but for neighbours at their corner;
//! - no edge passes a corner that it does not end, at the height of that
//!   corner, within its `clearance` to the left or right of it: 15 of 256
//!   pixels up to 10922 pixels from the origin, 3 pixels and 14 of 256 at the
//!   end of the range.
//!
//! Any other polygon gets none, and neither does one on which the
//! tessellator reports an error or whose mesh names a vertex that it does
//! not have.

use crate::geometry::{
    is_simple_polygon, lemma_orient_bound, magnitude, orient, orientation, ring_next,
    simple_polygon, Pos2,
};
use lyon_tessellation::math::point;
use lyon_tessellation::path::Path;
use lyon_tessellation::{BuffersBuilder, FillOptions, FillTessellator, FillVertex, VertexBuffers};
use vstd::prelude::*;

verus! {

/// The triangles that fill one area: corner positions, and three indices
/// into them for each triangle.
pub struct MeshData {
    pub indices: Vec<u32>,
    pub vertices: Vec<Pos2>,
}

/// What a `MeshData` holds, as contracts see it.
pub struct MeshView {
    pub indices: Seq<u32>,
    pub vertices: Seq<Pos2>,
}

impl View for MeshData {
    type V = MeshView;

    open spec fn view(&self) -> MeshView {
        MeshView { indices: self.indices@, vertices: self.vertices@ }
    }
}

/// The largest coordinate of a corner that is handed to the tessellator,
/// which works in floats of 24 bits. Up to it every coordinate, and every
/// difference of two, is a float of the same value, so the polygon that the
/// tessellator sees is the polygon of whole numbers.
pub const MAX_MESH_COORDINATE: i32 = 0x80_0000;

/// Both coordinates of `p` are within the range of the tessellator.
pub open spec fn exact_for_mesh(p: Pos2) -> bool {
    &&& -MAX_MESH_COORDINATE <= p.x <= MAX_MESH_COORDINATE
    &&& -MAX_MESH_COORDINATE <= p.y <= MAX_MESH_COORDINATE
}

/// The edge from `a` to `b` is not level and passes the height of `p`.
pub open spec fn passes_height(a: Pos2, b: Pos2, p: Pos2) -> bool {
    ||| a.y <= p.y <= b.y && a.y < b.y
    ||| b.y <= p.y <= a.y && b.y < a.y
}

/// How far the edge from `a` to `b` has to stay from a corner at whose
/// height it passes, in 256ths of a pixel, for the tessellator to tell the
/// two apart. The tessellator takes a corner to lie on an edge that passes
/// within 0.05 pixels of it, which is 13 of 256 rounded up. It places the
/// edge at that height in floats, which for ends at most `m` to the left or
/// right of the origin are off by at most `6 * m` times 2 to the power -24
/// pixels, that is `3 * m / 32768` of 256; one more is added for rounding.
pub open spec fn clearance(a: Pos2, b: Pos2) -> int {
    let m = if magnitude(a.x as int) < magnitude(b.x as int) {
        magnitude(b.x as int)
    } else {
        magnitude(a.x as int)
    };
    14 + (3 * m + 32767) / 32768
}

/// Where the edge from `a` to `b` passes the height of `p`, it passes it
/// farther to the left or right of `p` than its `clearance`. The distance
/// between the two at that height is `orient(a, b, p)` over the edge's rise.
pub open spec fn clear_of(a: Pos2, b: Pos2, p: Pos2) -> bool {
    passes_height(a, b, p) ==> 256 * magnitude(orient(a, b, p)) > clearance(a, b) * magnitude(
        b.y - a.y,
    )
}

/// Every corner of the closed polygon `path` is clear of every edge that
/// it does not end.
pub open spec fn well_clear(path: Seq<Pos2>) -> bool {
    forall|i: int, k: int|
        0 <= i < path.len() && 0 <= k < path.len() && k != i && k != ring_next(
            i,
            path.len() as int,
        ) ==> #[trigger] clear_of(path[i], path[ring_next(i, path.len() as int)], path[k])
}

/// The closed polygon `path` is one that the tessellator is made for, and
/// these are the limits of what the library fills: every coordinate is at
/// most `MAX_MESH_COORDINATE` pixels from the origin, the polygon is simple,
/// and every edge passes every corner that it does not end at more than its
/// `clearance`. All three come from the tessellator: it works in floats,
/// asks for edges that do not meet, and tells an edge from a corner only
/// beyond its tolerance.
pub open spec fn tessellable(path: Seq<Pos2>) -> bool {
    &&& forall|i: int| 0 <= i < path.len() ==> exact_for_mesh(#[trigger] path[i])
    &&& simple_polygon(path)
    &&& well_clear(path)
}

fn size_of(v: i32) -> (r: i128)
    ensures
        r == magnitude(v as int),
{
    if v < 0 {
        -(v as i128)
    } else {
        v as i128
    }
}

fn is_clear_of(a: Pos2, b: Pos2, p: Pos2) -> (r: bool)
    ensures
        r == clear_of(a, b, p),
{
    if (a.y <= p.y && p.y <= b.y && a.y < b.y) || (b.y <= p.y && p.y <= a.y && b.y < a.y) {
        let ax: i128 = size_of(a.x);
        let bx: i128 = size_of(b.x);
        let m: i128 = if ax < bx {
            bx
        } else {
            ax
        };
        let margin: i128 = 14 + (3 * m + 32767) / 32768;
        let rise: i128 = b.y as i128 - a.y as i128;
        let height: i128 = if rise < 0 {
            -rise
        } else {
            rise
        };
        let turn: i128 = orientation(a, b, p);
        proof {
            lemma_orient_bound(a, b, p);
        }
        let apart: i128 = if turn < 0 {
            -turn
        } else {
            turn
        };
        proof {
            assert(0 <= margin * height <= 0x1_0000_0000_0000_0000) by (nonlinear_arith)
                requires
                    0 <= margin <= 0x1_0000_0000,
                    0 <= height <= 0x1_0000_0000,
            ;
        }
        256 * apart > margin * height
    } else {
        true
    }
}

/// Whether every corner of `path` is clear of every edge that it does not
/// end.
fn is_well_clear(path: &Vec<Pos2>) -> (r: bool)
    ensures
        r == well_clear(path@),
{
    let n = path.len();
    let mut i: usize = 0;
    while i < n
        invariant
            i <= n,
            n == path@.len(),
            forall|a: int, k: int|
                0 <= a < i && 0 <= k < n && k != a && k != ring_next(a, n as int)
                    ==> #[trigger] clear_of(path@[a], path@[ring_next(a, n as int)], path@[k]),
        decreases n - i,
    {
        let next: usize = if i + 1 == n {
            0
        } else {
            i + 1
        };
        let mut k: usize = 0;
        while k < n
            invariant
                k <= n,
                i < n,
                n == path@.len(),
                next as int == ring_next(i as int, n as int),
                forall|b: int|
                    0 <= b < k && b != i && b != next ==> #[trigger] clear_of(
                        path@[i as int],
                        path@[next as int],
                        path@[b],
                    ),
            decreases n - k,
        {
            if k != i && k != next && !is_clear_of(path[i], path[next], path[k]) {
                assert(!clear_of(
                    path@[i as int],
                    path@[ring_next(i as int, n as int)],
                    path@[k as int],
                ));
                return false;
            }
            k = k + 1;
        }
        i = i + 1;
    }
    true
}

/// Whether `path` is `tessellable`.
pub fn is_tessellable(path: &Vec<Pos2>) -> (r: bool)
    ensures
        r == tessellable(path@),
{
    let mut i: usize = 0;
    while i < path.len()
        invariant
            i <= path@.len(),
            forall|j: int| 0 <= j < i ==> exact_for_mesh(#[trigger] path@[j]),
        decreases path@.len() - i,
    {
        let p = path[i];
        if p.x < -MAX_MESH_COORDINATE || p.x > MAX_MESH_COORDINATE || p.y < -MAX_MESH_COORDINATE
            || p.y > MAX_MESH_COORDINATE {
            return false;
        }
        i = i + 1;
    }
    is_simple_polygon(path) && is_well_clear(path)
}

/// The mesh that the fill tessellator of `lyon_tessellation` makes of the
/// closed polygon `path`, with its default options but for the handling of
/// intersections, which is off; `None` where it reports an error.
pub uninterp spec fn fill_mesh(path: Seq<Pos2>) -> Option<MeshView>;

/// `lyon_tessellation::FillTessellator::tessellate_path` on the closed
/// polygon `path`, with intersection handling off. Coordinates are handed
/// over as the floats of the same value and come back as integers. An error
/// of the tessellator comes back as `None`.
///
/// The tessellator's documentation of `FillOptions::handle_intersections`
/// asks for a path whose edges do not meet where the option is off. Its scan
/// of the active edges takes a corner to lie on an edge where the edge, at
/// the corner's height, is within the tolerance of the corner; the tolerance
/// is half of the option's default of 0.1. `tessellable` keeps every edge
/// farther from every corner that it does not end. The indices come in
/// threes: `BuffersBuilder::add_triangle` adds them three at a time and
/// nothing else adds any, into buffers that are empty at the start.
#[verifier::external_body]
fn tessellate_fill(path: &Vec<Pos2>) -> (r: Option<MeshData>)
    requires
        tessellable(path@),
    ensures
        r.is_some() == fill_mesh(path@).is_some(),
        r matches Some(m) ==> Some(m@) == fill_mesh(path@) && m@.indices.len() % 3 == 0,
{
    let mut builder = Path::builder();
    builder.begin(point(path[0].x as _, path[0].y as _));
    path.iter().skip(1).for_each(|p| { builder.line_to(point(p.x as _, p.y as _)); });
    builder.close();
    let mut geometry: VertexBuffers<Pos2, u32> = VertexBuffers::new();
    let result = FillTessellator::new().tessellate_path(
        &builder.build(),
        &FillOptions::default().with_intersections(false),
        &mut BuffersBuilder::new(
            &mut geometry,
            |v: FillVertex| Pos2::new(v.position().x as i32, v.position().y as i32),
        ),
    );
    result.ok().map(|_| MeshData { indices: geometry.indices, vertices: geometry.vertices })
}

/// Every index of `m` names one of its vertices.
pub open spec fn indices_in_range(m: MeshView) -> bool {
    forall|i: int| 0 <= i < m.indices.len() ==> (#[trigger] m.indices[i]) < m.vertices.len()
}

/// The mesh of the closed polygon `path`: what the tessellator makes of it,
/// where `path` is `tessellable`, the tessellator reports no error, and every
/// index of the result names one of its vertices.
pub open spec fn mesh_of(path: Seq<Pos2>) -> Option<MeshView> {
    if tessellable(path) {
        match fill_mesh(path) {
            Some(m) => if indices_in_range(m) {
                Some(m)
            } else {
                None
            },
            None => None,
        }
    } else {
        None
    }
}

/// Whether every index of `mesh` names one of its vertices.
pub fn has_indices_in_range(mesh: &MeshData) -> (r: bool)
    ensures
        r == indices_in_range(mesh@),
{
    let mut i: usize = 0;
    while i < mesh.indices.len()
        invariant
            i <= mesh.indices@.len(),
            forall|j: int| 0 <= j < i ==> (#[trigger] mesh.indices@[j]) < mesh.vertices@.len(),
        decreases mesh.indices@.len() - i,
    {
        if mesh.indices[i] as usize >= mesh.vertices.len() {
            assert(mesh@.indices[i as int] >= mesh@.vertices.len());
            return false;
        }
        i = i + 1;
    }
    true
}

/// Tessellates the closed polygon `path`. A polygon that is not `tessellable`
/// gets no mesh: one with a coordinate beyond `MAX_MESH_COORDINATE`, one whose
/// edges meet, or one with an edge that passes a corner within its
/// `clearance`. The indices of a mesh come in threes, one three for each
/// triangle, and each of them names a vertex of the mesh.
pub fn tessellate(path: &Vec<Pos2>) -> (r: Option<MeshData>)
    ensures
        r.is_some() == mesh_of(path@).is_some(),
        r matches Some(m) ==> Some(m@) == mesh_of(path@) && m@.indices.len() % 3 == 0
            && indices_in_range(m@),
{
    if is_tessellable(path) {
        match tessellate_fill(path) {
            Some(mesh) => {
                if has_indices_in_range(&mesh) {
                    Some(mesh)
                } else {
                    None
                }
            },
            None => None,
        }
    } else {
        None
    }
}

} // verus!
