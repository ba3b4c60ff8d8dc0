//! Screen-space points and the area of a polygon.
//!
//! Screen coordinates are whole pixels. Sums and differences saturate at
//! the ends of the `i32` range.

use vstd::prelude::*;

verus! {

/// `v` brought into the range of `i32`.
pub open spec fn clamp_i32(v: int) -> int {
    if v < i32::MIN {
        i32::MIN as int
    } else if v > i32::MAX {
        i32::MAX as int
    } else {
        v
    }
}

fn saturate(v: i64) -> (r: i32)
    ensures
        r == clamp_i32(v as int),
{
    if v < i32::MIN as i64 {
        i32::MIN
    } else if v > i32::MAX as i64 {
        i32::MAX
    } else {
        v as i32
    }
}

/// A displacement on screen.
#[derive(Debug, Copy, Clone, PartialEq, Eq, Structural)]
pub struct Vec2 {
    pub x: i32,
    pub y: i32,
}

impl Vec2 {
    /// No displacement.
    pub open spec fn spec_zero() -> Vec2 {
        Vec2 { x: 0, y: 0 }
    }

    #[verifier::when_used_as_spec(spec_zero)]
    pub fn zero() -> (v: Self)
        ensures
            v == Vec2::spec_zero(),
    {
        Vec2 { x: 0, y: 0 }
    }

    pub fn new(x: i32, y: i32) -> (v: Self)
        ensures
            v == (Vec2 { x, y }),
    {
        Vec2 { x, y }
    }

    /// The component-wise sum, saturating.
    pub open spec fn spec_plus(self, other: Vec2) -> Vec2 {
        Vec2 {
            x: clamp_i32(self.x + other.x) as i32,
            y: clamp_i32(self.y + other.y) as i32,
        }
    }

    #[verifier::when_used_as_spec(spec_plus)]
    pub fn plus(self, other: Vec2) -> (v: Vec2)
        ensures
            v == self.spec_plus(other),
    {
        Vec2 {
            x: saturate(self.x as i64 + other.x as i64),
            y: saturate(self.y as i64 + other.y as i64),
        }
    }
}

impl Default for Vec2 {
    fn default() -> (v: Self)
        ensures
            v == Vec2::spec_zero(),
    {
        Vec2 { x: 0, y: 0 }
    }
}

/// A position on screen.
#[derive(Debug, Copy, Clone, PartialEq, Eq, Structural)]
pub struct Pos2 {
    pub x: i32,
    pub y: i32,
}

impl Pos2 {
    pub fn new(x: i32, y: i32) -> (p: Self)
        ensures
            p == (Pos2 { x, y }),
    {
        Pos2 { x, y }
    }

    /// `self` moved by `v`, saturating.
    pub open spec fn spec_translate(self, v: Vec2) -> Pos2 {
        Pos2 { x: clamp_i32(self.x + v.x) as i32, y: clamp_i32(self.y + v.y) as i32 }
    }

    #[verifier::when_used_as_spec(spec_translate)]
    pub fn translate(self, v: Vec2) -> (p: Pos2)
        ensures
            p == self.spec_translate(v),
    {
        Pos2 {
            x: saturate(self.x as i64 + v.x as i64),
            y: saturate(self.y as i64 + v.y as i64),
        }
    }

    /// The displacement that leads from `other` to `self`, saturating.
    pub open spec fn spec_minus(self, other: Pos2) -> Vec2 {
        Vec2 { x: clamp_i32(self.x - other.x) as i32, y: clamp_i32(self.y - other.y) as i32 }
    }

    #[verifier::when_used_as_spec(spec_minus)]
    pub fn minus(self, other: Pos2) -> (v: Vec2)
        ensures
            v == self.spec_minus(other),
    {
        Vec2 {
            x: saturate(self.x as i64 - other.x as i64),
            y: saturate(self.y as i64 - other.y as i64),
        }
    }
}

impl Default for Pos2 {
    fn default() -> (p: Self)
        ensures
            p == (Pos2 { x: 0, y: 0 }),
    {
        Pos2 { x: 0, y: 0 }
    }
}

/// The cross product of two position vectors.
pub open spec fn cross(a: Pos2, b: Pos2) -> int {
    a.x * b.y - b.x * a.y
}

/// The sum of the cross products of the first `k` edges of the closed
/// polygon `p`; edge `i` leads from `p[i]` to `p[(i + 1) % p.len()]`.
pub open spec fn shoelace_sum(p: Seq<Pos2>, k: nat) -> int
    decreases k,
{
    if k == 0 {
        0
    } else {
        shoelace_sum(p, (k - 1) as nat) + cross(p[k - 1], p[(k as int) % (p.len() as int)])
    }
}

/// Twice the signed area of the closed polygon `p` by the shoelace
/// formula; zero for fewer than three points.
pub open spec fn doubled_area(p: Seq<Pos2>) -> int {
    if p.len() < 3 {
        0
    } else {
        shoelace_sum(p, p.len())
    }
}

/// Half of `d`, a half rounded away from zero.
pub open spec fn half_away(d: int) -> int {
    if d > 0 {
        (d - 1) / 2 + 1
    } else if d < 0 {
        -((-d - 1) / 2 + 1)
    } else {
        0
    }
}

/// The signed area of the closed polygon `p` by the shoelace formula, in
/// square pixels: positive where the corners turn one way, negative where
/// they turn the other, zero for fewer than three points. The corners stand
/// on whole pixels, so the area is a whole number or a whole number and a
/// half; a half is rounded away from zero, so only a polygon without area
/// has the area zero.
pub open spec fn signed_area(p: Seq<Pos2>) -> int {
    half_away(doubled_area(p))
}

/// The absolute value of `v`.
pub open spec fn magnitude(v: int) -> int {
    if v < 0 {
        -v
    } else {
        v
    }
}

proof fn lemma_cross_bound(a: Pos2, b: Pos2)
    ensures
        -0x8000_0000_0000_0000 <= cross(a, b) <= 0x8000_0000_0000_0000,
        -0x4000_0000_0000_0000 <= a.x * b.y <= 0x4000_0000_0000_0000,
        -0x4000_0000_0000_0000 <= b.x * a.y <= 0x4000_0000_0000_0000,
{
    lemma_product_bound(a.x as int, b.y as int);
    lemma_product_bound(b.x as int, a.y as int);
}

proof fn lemma_product_bound(x: int, y: int)
    requires
        -0x8000_0000 <= x <= 0x8000_0000,
        -0x8000_0000 <= y <= 0x8000_0000,
    ensures
        -0x4000_0000_0000_0000 <= x * y <= 0x4000_0000_0000_0000,
{
    assert(-0x4000_0000_0000_0000 <= x * y <= 0x4000_0000_0000_0000) by (nonlinear_arith)
        requires
            -0x8000_0000 <= x <= 0x8000_0000,
            -0x8000_0000 <= y <= 0x8000_0000,
    ;
}

/// The sum of `k` cross products is at most `k` times the largest of them.
proof fn lemma_shoelace_bound(p: Seq<Pos2>, k: nat)
    ensures
        -k * 0x8000_0000_0000_0000 <= shoelace_sum(p, k) <= k * 0x8000_0000_0000_0000,
    decreases k,
{
    if k > 0 {
        lemma_shoelace_bound(p, (k - 1) as nat);
        lemma_cross_bound(p[k - 1], p[(k as int) % (p.len() as int)]);
        assert((k - 1) * 0x8000_0000_0000_0000 + 0x8000_0000_0000_0000 == k
            * 0x8000_0000_0000_0000) by (nonlinear_arith);
    }
}

/// Twice the area of a polygon with no more corners than a vector holds
/// is a number of 128 bits, and so is the area.
pub proof fn lemma_area_bound(p: Seq<Pos2>)
    requires
        p.len() <= usize::MAX,
    ensures
        i128::MIN <= doubled_area(p) <= i128::MAX,
        i128::MIN <= signed_area(p) <= i128::MAX,
{
    lemma_shoelace_bound(p, p.len());
    assert(p.len() * 0x8000_0000_0000_0000 <= 0xffff_ffff_ffff_ffff * 0x8000_0000_0000_0000)
        by (nonlinear_arith)
        requires
            p.len() <= 0xffff_ffff_ffff_ffff,
    ;
}

/// The signed area of the closed polygon `points` in square pixels, a
/// half rounded away from zero.
pub fn area_size(points: &Vec<Pos2>) -> (a: i128)
    ensures
        a == signed_area(points@),
{
    halve(doubled_area_size(points))
}

/// Half of `d`, a half rounded away from zero.
pub fn halve(d: i128) -> (a: i128)
    ensures
        a == half_away(d as int),
{
    if d > 0 {
        (d - 1) / 2 + 1
    } else if d < 0 {
        -((-(d + 1)) / 2 + 1)
    } else {
        0
    }
}

/// Halving keeps the sign and the order by magnitude, gives zero for zero
/// only, and is off by less than one from the half itself.
pub proof fn lemma_half_away(d: int, e: int)
    ensures
        (half_away(d) > 0) == (d > 0),
        (half_away(d) < 0) == (d < 0),
        magnitude(half_away(d)) == half_away(magnitude(d)),
        magnitude(d) <= 2 * magnitude(half_away(d)) <= magnitude(d) + 1,
        magnitude(d) <= magnitude(e) ==> magnitude(half_away(d)) <= magnitude(half_away(e)),
        magnitude(half_away(d)) < magnitude(half_away(e)) ==> magnitude(d) < magnitude(e),
{
}

/// Twice the signed area of the closed polygon `points`, which is a whole
/// number.
pub fn doubled_area_size(points: &Vec<Pos2>) -> (a: i128)
    ensures
        a == doubled_area(points@),
{
    let n = points.len();
    if n < 3 {
        return 0;
    }
    let mut area: i128 = 0;
    let mut i: usize = 0;
    while i < n
        invariant
            i <= n,
            n == points@.len(),
            n >= 3,
            area == shoelace_sum(points@, i as nat),
            -(i as int) * 0x8000_0000_0000_0000 <= area <= (i as int) * 0x8000_0000_0000_0000,
        decreases n - i,
    {
        let next: usize = if i + 1 == n {
            0
        } else {
            i + 1
        };
        let p1 = points[i];
        let p2 = points[next];
        proof {
            lemma_cross_bound(p1, p2);
            assert(next as int == ((i + 1) as int) % (n as int)) by {
                if i + 1 == n {
                    assert((n as int) % (n as int) == 0) by (nonlinear_arith)
                        requires
                            n > 0,
                    ;
                } else {
                    assert(((i + 1) as int) % (n as int) == i + 1) by (nonlinear_arith)
                        requires
                            0 <= i + 1 < n,
                    ;
                }
            }
            assert((i as int) * 0x8000_0000_0000_0000 + 0x8000_0000_0000_0000 == (i + 1)
                * 0x8000_0000_0000_0000) by (nonlinear_arith);
            assert((i + 1) * 0x8000_0000_0000_0000 <= 0xffff_ffff_ffff_ffff
                * 0x8000_0000_0000_0000) by (nonlinear_arith)
                requires
                    i + 1 <= 0xffff_ffff_ffff_ffff,
            ;
        }
        let term: i128 = (p1.x as i128) * (p2.y as i128) - (p2.x as i128) * (p1.y as i128);
        area = area + term;
        i = i + 1;
    }
    area
}

/// The absolute value of an area.
pub fn area_magnitude(a: i128) -> (m: u128)
    ensures
        m == magnitude(a as int),
{
    if a >= 0 {
        a as u128
    } else if a == i128::MIN {
        0x8000_0000_0000_0000_0000_0000_0000_0000u128
    } else {
        (-a) as u128
    }
}

/// Twice the signed area of the triangle `a`, `b`, `c`: positive where the
/// three turn one way, negative where they turn the other, zero on a line.
pub open spec fn orient(a: Pos2, b: Pos2, c: Pos2) -> int {
    (b.x - a.x) * (c.y - a.y) - (b.y - a.y) * (c.x - a.x)
}

/// `v` lies between `a` and `b`, ends included.
pub open spec fn between(a: int, b: int, v: int) -> bool {
    (a <= v <= b) || (b <= v <= a)
}

/// `p` lies on the segment from `a` to `b`, ends included.
pub open spec fn on_segment(a: Pos2, b: Pos2, p: Pos2) -> bool {
    orient(a, b, p) == 0 && between(a.x as int, b.x as int, p.x as int) && between(
        a.y as int,
        b.y as int,
        p.y as int,
    )
}

/// `u` and `v` have opposite signs.
pub open spec fn opposite(u: int, v: int) -> bool {
    (u > 0 && v < 0) || (u < 0 && v > 0)
}

/// The segments `a`-`b` and `c`-`d` have a point in common.
pub open spec fn segments_meet(a: Pos2, b: Pos2, c: Pos2, d: Pos2) -> bool {
    ||| (opposite(orient(c, d, a), orient(c, d, b)) && opposite(orient(a, b, c), orient(a, b, d)))
    ||| on_segment(c, d, a)
    ||| on_segment(c, d, b)
    ||| on_segment(a, b, c)
    ||| on_segment(a, b, d)
}

/// The index after `i` on a ring of `n`.
pub open spec fn ring_next(i: int, n: int) -> int {
    if i + 1 == n {
        0
    } else {
        i + 1
    }
}

/// Edges `i` and `j` of the closed polygon `p` (`i < j`) do not touch,
/// but for the corner that neighbouring edges share.
pub open spec fn edges_apart(p: Seq<Pos2>, i: int, j: int) -> bool {
    let n = p.len() as int;
    let a = p[i];
    let b = p[ring_next(i, n)];
    let c = p[j];
    let d = p[ring_next(j, n)];
    if j == i + 1 {
        !on_segment(a, b, d) && !on_segment(c, d, a)
    } else if i == 0 && j == n - 1 {
        !on_segment(a, b, c) && !on_segment(c, d, b)
    } else {
        !segments_meet(a, b, c, d)
    }
}

/// The closed polygon `p` has at least three corners, no edge of length
/// zero, and no two edges that touch but for neighbours at their corner.
pub open spec fn simple_polygon(p: Seq<Pos2>) -> bool {
    &&& p.len() >= 3
    &&& forall|i: int| 0 <= i < p.len() ==> p[i] != #[trigger] p[ring_next(i, p.len() as int)]
    &&& forall|i: int, j: int| 0 <= i < j < p.len() ==> #[trigger] edges_apart(p, i, j)
}

/// Both products of `orient` are within 65 bits.
pub proof fn lemma_orient_bound(a: Pos2, b: Pos2, c: Pos2)
    ensures
        -0x1_0000_0000_0000_0000 <= (b.x - a.x) * (c.y - a.y) <= 0x1_0000_0000_0000_0000,
        -0x1_0000_0000_0000_0000 <= (b.y - a.y) * (c.x - a.x) <= 0x1_0000_0000_0000_0000,
{
    let p = b.x - a.x;
    let q = c.y - a.y;
    let r = b.y - a.y;
    let s = c.x - a.x;
    assert(-0x1_0000_0000_0000_0000 <= p * q <= 0x1_0000_0000_0000_0000) by (nonlinear_arith)
        requires
            -0x1_0000_0000 <= p <= 0x1_0000_0000,
            -0x1_0000_0000 <= q <= 0x1_0000_0000,
    ;
    assert(-0x1_0000_0000_0000_0000 <= r * s <= 0x1_0000_0000_0000_0000) by (nonlinear_arith)
        requires
            -0x1_0000_0000 <= r <= 0x1_0000_0000,
            -0x1_0000_0000 <= s <= 0x1_0000_0000,
    ;
}

/// Which way `a`, `b`, `c` turn: `orient` of the three.
pub fn orientation(a: Pos2, b: Pos2, c: Pos2) -> (r: i128)
    ensures
        r == orient(a, b, c),
{
    proof {
        lemma_orient_bound(a, b, c);
    }
    let p: i128 = (b.x as i128) - (a.x as i128);
    let q: i128 = (c.y as i128) - (a.y as i128);
    let r: i128 = (b.y as i128) - (a.y as i128);
    let s: i128 = (c.x as i128) - (a.x as i128);
    p * q - r * s
}

fn is_between(a: i32, b: i32, v: i32) -> (r: bool)
    ensures
        r == between(a as int, b as int, v as int),
{
    (a <= v && v <= b) || (b <= v && v <= a)
}

fn is_on_segment(a: Pos2, b: Pos2, p: Pos2) -> (r: bool)
    ensures
        r == on_segment(a, b, p),
{
    orientation(a, b, p) == 0 && is_between(a.x, b.x, p.x) && is_between(a.y, b.y, p.y)
}

fn is_opposite(u: i128, v: i128) -> (r: bool)
    ensures
        r == opposite(u as int, v as int),
{
    (u > 0 && v < 0) || (u < 0 && v > 0)
}

fn do_segments_meet(a: Pos2, b: Pos2, c: Pos2, d: Pos2) -> (r: bool)
    ensures
        r == segments_meet(a, b, c, d),
{
    (is_opposite(orientation(c, d, a), orientation(c, d, b)) && is_opposite(
        orientation(a, b, c),
        orientation(a, b, d),
    )) || is_on_segment(c, d, a) || is_on_segment(c, d, b) || is_on_segment(a, b, c)
        || is_on_segment(a, b, d)
}

fn are_edges_apart(p: &Vec<Pos2>, i: usize, j: usize) -> (r: bool)
    requires
        i < j < p@.len(),
    ensures
        r == edges_apart(p@, i as int, j as int),
{
    let n = p.len();
    let a = p[i];
    let b = p[if i + 1 == n { 0 } else { i + 1 }];
    let c = p[j];
    let d = p[if j + 1 == n { 0 } else { j + 1 }];
    if j == i + 1 {
        !is_on_segment(a, b, d) && !is_on_segment(c, d, a)
    } else if i == 0 && j == n - 1 {
        !is_on_segment(a, b, c) && !is_on_segment(c, d, b)
    } else {
        !do_segments_meet(a, b, c, d)
    }
}

/// Whether the closed polygon `p` is simple.
pub fn is_simple_polygon(p: &Vec<Pos2>) -> (r: bool)
    ensures
        r == simple_polygon(p@),
{
    let n = p.len();
    if n < 3 {
        return false;
    }
    let mut i: usize = 0;
    while i < n
        invariant
            i <= n,
            n == p@.len(),
            n >= 3,
            forall|a: int| 0 <= a < i ==> p@[a] != #[trigger] p@[ring_next(a, n as int)],
            forall|a: int, b: int| 0 <= a < b < n && a < i ==> #[trigger] edges_apart(p@, a, b),
        decreases n - i,
    {
        let next: usize = if i + 1 == n {
            0
        } else {
            i + 1
        };
        if p[i].x == p[next].x && p[i].y == p[next].y {
            assert(p@[i as int] == p@[ring_next(i as int, n as int)]);
            return false;
        }
        let mut j: usize = i + 1;
        while j < n
            invariant
                i < j <= n,
                n == p@.len(),
                n >= 3,
                forall|b: int| i < b < j ==> #[trigger] edges_apart(p@, i as int, b),
            decreases n - j,
        {
            if !are_edges_apart(p, i, j) {
                return false;
            }
            j = j + 1;
        }
        i = i + 1;
    }
    true
}

} // verus!
