//! Exact integer geometry on grid coordinates: orientation tests, segment
//! intersection, point-in-polygon by crossing parity, and the two predicates
//! the coverage search needs on a cell rectangle (touches / lies within).

use vstd::prelude::*;

use crate::{GeoPoint, valid_point, COORD_MAX};

verus! {

/// Twice the signed area of the triangle `a b c`: positive when `c` lies to
/// the left of the directed line from `a` to `b`.
pub open spec fn cross(a: GeoPoint, b: GeoPoint, c: GeoPoint) -> int {
    (b.x as int - a.x as int) * (c.y as int - a.y as int) - (b.y as int - a.y as int) * (c.x
        as int - a.x as int)
}

proof fn lemma_mul_bound(x: int, y: int, m: int)
    requires
        -m <= x <= m,
        -m <= y <= m,
        0 <= m,
    ensures
        -m * m <= x * y <= m * m,
{
    assert(-m * m <= x * y <= m * m) by (nonlinear_arith)
        requires
            -m <= x <= m,
            -m <= y <= m,
            0 <= m,
    ;
}

/// The exact value of `cross` on representable coordinates, without overflow.
pub fn cross_val(a: GeoPoint, b: GeoPoint, c: GeoPoint) -> (r: i64)
    requires
        valid_point(a),
        valid_point(b),
        valid_point(c),
    ensures
        r as int == cross(a, b, c),
{
    let bx: i64 = b.x as i64 - a.x as i64;
    let by: i64 = b.y as i64 - a.y as i64;
    let cx: i64 = c.x as i64 - a.x as i64;
    let cy: i64 = c.y as i64 - a.y as i64;
    proof {
        lemma_mul_bound(bx as int, cy as int, COORD_MAX as int);
        lemma_mul_bound(by as int, cx as int, COORD_MAX as int);
    }
    bx * cy - by * cx
}

pub open spec fn min_i(a: int, b: int) -> int {
    if a <= b {
        a
    } else {
        b
    }
}

pub open spec fn max_i(a: int, b: int) -> int {
    if a <= b {
        b
    } else {
        a
    }
}

/// Whether `p` lies on the closed segment from `a` to `b`.
pub open spec fn on_segment(p: GeoPoint, a: GeoPoint, b: GeoPoint) -> bool {
    &&& cross(a, b, p) == 0
    &&& min_i(a.x as int, b.x as int) <= p.x as int <= max_i(a.x as int, b.x as int)
    &&& min_i(a.y as int, b.y as int) <= p.y as int <= max_i(a.y as int, b.y as int)
}

pub fn on_segment_val(p: GeoPoint, a: GeoPoint, b: GeoPoint) -> (r: bool)
    requires
        valid_point(p),
        valid_point(a),
        valid_point(b),
    ensures
        r == on_segment(p, a, b),
{
    let lo_x: u32 = if a.x <= b.x {
        a.x
    } else {
        b.x
    };
    let hi_x: u32 = if a.x <= b.x {
        b.x
    } else {
        a.x
    };
    let lo_y: u32 = if a.y <= b.y {
        a.y
    } else {
        b.y
    };
    let hi_y: u32 = if a.y <= b.y {
        b.y
    } else {
        a.y
    };
    cross_val(a, b, p) == 0 && lo_x <= p.x && p.x <= hi_x && lo_y <= p.y && p.y <= hi_y
}

/// Whether the open interiors of the two segments cross transversally.
pub open spec fn proper_crossing(a: GeoPoint, b: GeoPoint, c: GeoPoint, d: GeoPoint) -> bool {
    let d1 = cross(c, d, a);
    let d2 = cross(c, d, b);
    let d3 = cross(a, b, c);
    let d4 = cross(a, b, d);
    ((d1 > 0 && d2 < 0) || (d1 < 0 && d2 > 0)) && ((d3 > 0 && d4 < 0) || (d3 < 0 && d4 > 0))
}

/// Whether the closed segments `a b` and `c d` share at least one point:
/// either a transversal crossing, or an endpoint of one lying on the other
/// (which also covers collinear overlap).
pub open spec fn segments_intersect(a: GeoPoint, b: GeoPoint, c: GeoPoint, d: GeoPoint) -> bool {
    proper_crossing(a, b, c, d) || on_segment(a, c, d) || on_segment(b, c, d) || on_segment(
        c,
        a,
        b,
    ) || on_segment(d, a, b)
}

pub fn segments_intersect_val(a: GeoPoint, b: GeoPoint, c: GeoPoint, d: GeoPoint) -> (r: bool)
    requires
        valid_point(a),
        valid_point(b),
        valid_point(c),
        valid_point(d),
    ensures
        r == segments_intersect(a, b, c, d),
{
    let d1: i64 = cross_val(c, d, a);
    let d2: i64 = cross_val(c, d, b);
    let d3: i64 = cross_val(a, b, c);
    let d4: i64 = cross_val(a, b, d);
    if ((d1 > 0 && d2 < 0) || (d1 < 0 && d2 > 0)) && ((d3 > 0 && d4 < 0) || (d3 < 0 && d4 > 0)) {
        true
    } else {
        on_segment_val(a, c, d) || on_segment_val(b, c, d) || on_segment_val(c, a, b)
            || on_segment_val(d, a, b)
    }
}

/// A closed ring: at least four stored points (so at least three corners),
/// first and last point equal, all points representable.
pub open spec fn valid_ring(r: Seq<GeoPoint>) -> bool {
    &&& r.len() >= 4
    &&& r[0] == r[r.len() - 1]
    &&& forall|i: int| 0 <= i < r.len() ==> valid_point(#[trigger] r[i])
}

/// A polygon: one exterior ring and any number of hole rings.
pub struct Polygon {
    pub exterior: Vec<GeoPoint>,
    pub holes: Vec<Vec<GeoPoint>>,
}

/// The mathematical content of a `Polygon`: its rings as sequences.
pub struct PolyRings {
    pub exterior: Seq<GeoPoint>,
    pub holes: Seq<Seq<GeoPoint>>,
}

impl View for Polygon {
    type V = PolyRings;

    open spec fn view(&self) -> PolyRings {
        PolyRings {
            exterior: self.exterior@,
            holes: Seq::new(self.holes@.len(), |i: int| self.holes@[i]@),
        }
    }
}

pub open spec fn valid_polygon(pr: PolyRings) -> bool {
    &&& valid_ring(pr.exterior)
    &&& forall|i: int| 0 <= i < pr.holes.len() ==> valid_ring(#[trigger] pr.holes[i])
}

impl Polygon {
    /// Whether the polygon's rings are all well-formed.
    pub fn is_valid(&self) -> (r: bool)
        ensures
            r == valid_polygon(self@),
    {
        if !ring_is_valid(&self.exterior) {
            return false;
        }
        let n: usize = self.holes.len();
        let mut i: usize = 0;
        while i < n
            invariant
                0 <= i <= n,
                n == self.holes@.len(),
                valid_ring(self@.exterior),
                forall|j: int| 0 <= j < i ==> valid_ring(#[trigger] self@.holes[j]),
            decreases n - i,
        {
            if !ring_is_valid(&self.holes[i]) {
                assert(!valid_ring(self@.holes[i as int]));
                return false;
            }
            assert(valid_ring(self@.holes[i as int]));
            i = i + 1;
        }
        true
    }
}

pub fn ring_is_valid(r: &Vec<GeoPoint>) -> (b: bool)
    ensures
        b == valid_ring(r@),
{
    let n: usize = r.len();
    if n < 4 {
        return false;
    }
    if !(r[0].x == r[n - 1].x && r[0].y == r[n - 1].y) {
        return false;
    }
    let mut i: usize = 0;
    while i < n
        invariant
            0 <= i <= n,
            n == r@.len() >= 4,
            r@[0] == r@[n - 1],
            forall|j: int| 0 <= j < i ==> valid_point(#[trigger] r@[j]),
        decreases n - i,
    {
        if !(r[i].x <= COORD_MAX && r[i].y <= COORD_MAX) {
            return false;
        }
        i = i + 1;
    }
    true
}

/// Whether `p` lies on one of the ring's edges.
pub open spec fn on_ring_boundary(p: GeoPoint, r: Seq<GeoPoint>) -> bool {
    exists|i: int| 0 <= i < r.len() - 1 && on_segment(p, #[trigger] r[i], r[i + 1])
}

pub fn on_ring_boundary_val(p: GeoPoint, r: &Vec<GeoPoint>) -> (b: bool)
    requires
        valid_point(p),
        valid_ring(r@),
    ensures
        b == on_ring_boundary(p, r@),
{
    let n: usize = r.len();
    let mut i: usize = 0;
    while i < n - 1
        invariant
            0 <= i <= n - 1,
            n == r@.len() >= 4,
            valid_point(p),
            valid_ring(r@),
            forall|j: int| 0 <= j < i ==> !on_segment(p, #[trigger] r@[j], r@[j + 1]),
        decreases n - 1 - i,
    {
        if on_segment_val(p, r[i], r[i + 1]) {
            return true;
        }
        i = i + 1;
    }
    false
}

/// Whether the directed ring edge from `a` to `b` crosses the horizontal ray
/// going right from `p` (the standard half-open crossing rule, so that a
/// vertex shared by two edges is counted once).
pub open spec fn edge_crosses_ray(p: GeoPoint, a: GeoPoint, b: GeoPoint) -> bool {
    &&& ((a.y as int <= p.y as int) != (b.y as int <= p.y as int))
    &&& (if b.y as int > a.y as int {
        cross(a, b, p) > 0
    } else {
        cross(a, b, p) < 0
    })
}

/// How many of the first `n` ring edges cross the ray from `p`.
pub open spec fn crossing_count(p: GeoPoint, r: Seq<GeoPoint>, n: int) -> nat
    decreases n,
{
    if n <= 0 {
        0
    } else {
        crossing_count(p, r, n - 1) + (if edge_crosses_ray(p, r[n - 1], r[n]) {
            1nat
        } else {
            0nat
        })
    }
}

/// Crossing parity of the full ring: odd means `p` is enclosed by the ring
/// (for points not on the boundary).
pub open spec fn odd_crossings(p: GeoPoint, r: Seq<GeoPoint>) -> bool {
    crossing_count(p, r, r.len() - 1) % 2 == 1
}

pub fn odd_crossings_val(p: GeoPoint, r: &Vec<GeoPoint>) -> (b: bool)
    requires
        valid_point(p),
        valid_ring(r@),
    ensures
        b == odd_crossings(p, r@),
{
    let n: usize = r.len();
    let mut i: usize = 0;
    let mut odd: bool = false;
    while i < n - 1
        invariant
            0 <= i <= n - 1,
            n == r@.len() >= 4,
            valid_point(p),
            valid_ring(r@),
            odd == (crossing_count(p, r@, i as int) % 2 == 1),
        decreases n - 1 - i,
    {
        let a = r[i];
        let b = r[i + 1];
        let straddles: bool = (a.y <= p.y) != (b.y <= p.y);
        if straddles {
            let cr: i64 = cross_val(a, b, p);
            let toggles: bool = if b.y > a.y {
                cr > 0
            } else {
                cr < 0
            };
            if toggles {
                odd = !odd;
            }
        }
        assert(crossing_count(p, r@, i + 1) == crossing_count(p, r@, i as int) + (
        if edge_crosses_ray(p, r@[i as int], r@[i + 1]) {
            1nat
        } else {
            0nat
        }));
        i = i + 1;
    }
    odd
}

/// Whether `p` belongs to the closed region of the polygon: on any ring
/// boundary, or enclosed by the exterior ring and by no hole.
pub open spec fn in_polygon(p: GeoPoint, pr: PolyRings) -> bool {
    ||| on_ring_boundary(p, pr.exterior)
    ||| (exists|i: int| 0 <= i < pr.holes.len() && on_ring_boundary(p, #[trigger] pr.holes[i]))
    ||| (odd_crossings(p, pr.exterior) && (forall|i: int|
        0 <= i < pr.holes.len() ==> !odd_crossings(p, #[trigger] pr.holes[i])))
}

/// Decides the point-in-polygon predicate exactly.
pub fn point_in_polygon(p: GeoPoint, poly: &Polygon) -> (b: bool)
    requires
        valid_point(p),
        valid_polygon(poly@),
    ensures
        b == in_polygon(p, poly@),
{
    if on_ring_boundary_val(p, &poly.exterior) {
        return true;
    }
    let nh: usize = poly.holes.len();
    let mut i: usize = 0;
    while i < nh
        invariant
            0 <= i <= nh,
            nh == poly@.holes.len(),
            valid_point(p),
            valid_polygon(poly@),
            forall|j: int| 0 <= j < i ==> !on_ring_boundary(p, #[trigger] poly@.holes[j]),
        decreases nh - i,
    {
        assert(poly@.holes[i as int] == poly.holes@[i as int]@);
        if on_ring_boundary_val(p, &poly.holes[i]) {
            return true;
        }
        i = i + 1;
    }
    let mut k: usize = 0;
    while k < nh
        invariant
            0 <= k <= nh,
            nh == poly@.holes.len(),
            valid_point(p),
            valid_polygon(poly@),
            !on_ring_boundary(p, poly@.exterior),
            forall|j: int| 0 <= j < nh ==> !on_ring_boundary(p, #[trigger] poly@.holes[j]),
            forall|j: int| 0 <= j < k ==> !odd_crossings(p, #[trigger] poly@.holes[j]),
        decreases nh - k,
    {
        assert(poly@.holes[k as int] == poly.holes@[k as int]@);
        if odd_crossings_val(p, &poly.holes[k]) {
            return false;
        }
        k = k + 1;
    }
    odd_crossings_val(p, &poly.exterior)
}

/// An axis-aligned rectangle, closed on all sides.
#[derive(Clone, Copy, PartialEq, Eq, Structural, Debug)]
pub struct CellRect {
    pub x0: u32,
    pub y0: u32,
    pub x1: u32,
    pub y1: u32,
}

pub open spec fn valid_rect(r: CellRect) -> bool {
    r.x0 < r.x1 <= COORD_MAX && r.y0 < r.y1 <= COORD_MAX
}

/// The corners in counter-clockwise order starting at the south-west.
pub open spec fn corner(r: CellRect, k: int) -> GeoPoint {
    if k == 0 {
        (GeoPoint { x: r.x0, y: r.y0 })
    } else if k == 1 {
        (GeoPoint { x: r.x1, y: r.y0 })
    } else if k == 2 {
        (GeoPoint { x: r.x1, y: r.y1 })
    } else {
        (GeoPoint { x: r.x0, y: r.y1 })
    }
}

pub open spec fn in_rect(p: GeoPoint, r: CellRect) -> bool {
    r.x0 <= p.x <= r.x1 && r.y0 <= p.y <= r.y1
}

pub fn in_rect_val(p: GeoPoint, r: CellRect) -> (b: bool)
    ensures
        b == in_rect(p, r),
{
    r.x0 <= p.x && p.x <= r.x1 && r.y0 <= p.y && p.y <= r.y1
}

/// The rectangle edge from `corner(r, k)` to the next corner.
pub open spec fn rect_edge_end(r: CellRect, k: int) -> GeoPoint {
    if k == 3 {
        corner(r, 0)
    } else {
        corner(r, k + 1)
    }
}

pub fn corner_val(r: CellRect, k: usize) -> (p: GeoPoint)
    requires
        k < 4,
    ensures
        p == corner(r, k as int),
{
    if k == 0 {
        (GeoPoint { x: r.x0, y: r.y0 })
    } else if k == 1 {
        (GeoPoint { x: r.x1, y: r.y0 })
    } else if k == 2 {
        (GeoPoint { x: r.x1, y: r.y1 })
    } else {
        (GeoPoint { x: r.x0, y: r.y1 })
    }
}

/// Ring `0` is the exterior; ring `j + 1` is hole `j`.
pub open spec fn ring_count(pr: PolyRings) -> int {
    1 + pr.holes.len() as int
}

pub open spec fn ring_at(pr: PolyRings, j: int) -> Seq<GeoPoint> {
    if j == 0 {
        pr.exterior
    } else {
        pr.holes[j - 1]
    }
}

pub open spec fn any_corner_in_poly(r: CellRect, pr: PolyRings) -> bool {
    exists|k: int| 0 <= k < 4 && in_polygon(#[trigger] corner(r, k), pr)
}

pub open spec fn all_corners_in_poly(r: CellRect, pr: PolyRings) -> bool {
    forall|k: int| 0 <= k < 4 ==> in_polygon(#[trigger] corner(r, k), pr)
}

pub open spec fn any_vertex_in_rect(pr: PolyRings, r: CellRect) -> bool {
    exists|j: int, i: int|
        0 <= j < ring_count(pr) && 0 <= i < ring_at(pr, j).len() && in_rect(
            #[trigger] ring_at(pr, j)[i],
            r,
        )
}

pub open spec fn edge_touches_rect(a: GeoPoint, b: GeoPoint, r: CellRect) -> bool {
    exists|k: int|
        0 <= k < 4 && segments_intersect(a, b, #[trigger] corner(r, k), rect_edge_end(r, k))
}

pub open spec fn any_edge_touches_rect(pr: PolyRings, r: CellRect) -> bool {
    exists|j: int, i: int|
        0 <= j < ring_count(pr) && 0 <= i < ring_at(pr, j).len() - 1 && edge_touches_rect(
            #[trigger] ring_at(pr, j)[i],
            ring_at(pr, j)[i + 1],
            r,
        )
}

/// Whether the closed rectangle and the closed polygon region share at least
/// one point.  For regions bounded by simple rings this holds exactly when a
/// rectangle corner lies in the polygon, or the rectangle swallows a ring
/// vertex, or the two boundaries meet.
pub open spec fn rect_intersects_poly(r: CellRect, pr: PolyRings) -> bool {
    any_corner_in_poly(r, pr) || any_vertex_in_rect(pr, r) || any_edge_touches_rect(pr, r)
}

/// Whether the closed rectangle lies entirely within the polygon region: all
/// four corners are in the region and the polygon boundary stays clear of the
/// rectangle.  A rectangle merely touched by a ring on its rim is not counted
/// as contained.
pub open spec fn rect_within_poly(r: CellRect, pr: PolyRings) -> bool {
    all_corners_in_poly(r, pr) && !any_vertex_in_rect(pr, r) && !any_edge_touches_rect(pr, r)
}

/// A rectangle that lies within the polygon also intersects it.
pub proof fn lemma_within_implies_intersects(r: CellRect, pr: PolyRings)
    requires
        rect_within_poly(r, pr),
    ensures
        rect_intersects_poly(r, pr),
{
    assert(in_polygon(corner(r, 0), pr));
}

fn ring_any_vertex_in_rect(ring: &Vec<GeoPoint>, r: CellRect) -> (b: bool)
    ensures
        b == exists|i: int| 0 <= i < ring@.len() && in_rect(#[trigger] ring@[i], r),
{
    let n: usize = ring.len();
    let mut i: usize = 0;
    while i < n
        invariant
            0 <= i <= n,
            n == ring@.len(),
            forall|j: int| 0 <= j < i ==> !in_rect(#[trigger] ring@[j], r),
        decreases n - i,
    {
        if in_rect_val(ring[i], r) {
            return true;
        }
        i = i + 1;
    }
    false
}

fn segment_touches_rect(a: GeoPoint, b: GeoPoint, r: CellRect) -> (res: bool)
    requires
        valid_point(a),
        valid_point(b),
        valid_rect(r),
    ensures
        res == edge_touches_rect(a, b, r),
{
    let mut k: usize = 0;
    while k < 4
        invariant
            0 <= k <= 4,
            valid_point(a),
            valid_point(b),
            valid_rect(r),
            forall|j: int|
                0 <= j < k ==> !segments_intersect(a, b, #[trigger] corner(r, j), rect_edge_end(
                    r,
                    j,
                )),
        decreases 4 - k,
    {
        let c0 = corner_val(r, k);
        let c1 = if k == 3 {
            corner_val(r, 0)
        } else {
            corner_val(r, k + 1)
        };
        assert(c1 == rect_edge_end(r, k as int));
        if segments_intersect_val(a, b, c0, c1) {
            return true;
        }
        k = k + 1;
    }
    false
}

fn ring_any_edge_touches_rect(ring: &Vec<GeoPoint>, r: CellRect) -> (b: bool)
    requires
        valid_ring(ring@),
        valid_rect(r),
    ensures
        b == exists|i: int|
            0 <= i < ring@.len() - 1 && edge_touches_rect(#[trigger] ring@[i], ring@[i + 1], r),
{
    let n: usize = ring.len();
    let mut i: usize = 0;
    while i < n - 1
        invariant
            0 <= i <= n - 1,
            n == ring@.len() >= 4,
            valid_ring(ring@),
            valid_rect(r),
            forall|j: int|
                0 <= j < i ==> !edge_touches_rect(#[trigger] ring@[j], ring@[j + 1], r),
        decreases n - 1 - i,
    {
        if segment_touches_rect(ring[i], ring[i + 1], r) {
            return true;
        }
        i = i + 1;
    }
    false
}

fn any_vertex_in_rect_val(poly: &Polygon, r: CellRect) -> (b: bool)
    ensures
        b == any_vertex_in_rect(poly@, r),
{
    if ring_any_vertex_in_rect(&poly.exterior, r) {
        assert(ring_at(poly@, 0) == poly@.exterior);
        return true;
    }
    let nh: usize = poly.holes.len();
    let mut h: usize = 0;
    while h < nh
        invariant
            0 <= h <= nh,
            nh == poly@.holes.len(),
            !(exists|i: int|
                0 <= i < ring_at(poly@, 0).len() && in_rect(#[trigger] ring_at(poly@, 0)[i], r)),
            forall|j: int, i: int|
                1 <= j < 1 + h && 0 <= i < ring_at(poly@, j).len() ==> !in_rect(
                    #[trigger] ring_at(poly@, j)[i],
                    r,
                ),
        decreases nh - h,
    {
        assert(poly@.holes[h as int] == poly.holes@[h as int]@);
        if ring_any_vertex_in_rect(&poly.holes[h], r) {
            assert(ring_at(poly@, h + 1) == poly@.holes[h as int]);
            return true;
        }
        h = h + 1;
    }
    false
}

fn any_edge_touches_rect_val(poly: &Polygon, r: CellRect) -> (b: bool)
    requires
        valid_polygon(poly@),
        valid_rect(r),
    ensures
        b == any_edge_touches_rect(poly@, r),
{
    if ring_any_edge_touches_rect(&poly.exterior, r) {
        assert(ring_at(poly@, 0) == poly@.exterior);
        return true;
    }
    let nh: usize = poly.holes.len();
    let mut h: usize = 0;
    while h < nh
        invariant
            0 <= h <= nh,
            nh == poly@.holes.len(),
            valid_polygon(poly@),
            valid_rect(r),
            !(exists|i: int|
                0 <= i < ring_at(poly@, 0).len() - 1 && edge_touches_rect(
                    #[trigger] ring_at(poly@, 0)[i],
                    ring_at(poly@, 0)[i + 1],
                    r,
                )),
            forall|j: int, i: int|
                1 <= j < 1 + h && 0 <= i < ring_at(poly@, j).len() - 1 ==> !edge_touches_rect(
                    #[trigger] ring_at(poly@, j)[i],
                    ring_at(poly@, j)[i + 1],
                    r,
                ),
        decreases nh - h,
    {
        assert(poly@.holes[h as int] == poly.holes@[h as int]@);
        if ring_any_edge_touches_rect(&poly.holes[h], r) {
            assert(ring_at(poly@, h + 1) == poly@.holes[h as int]);
            return true;
        }
        h = h + 1;
    }
    false
}

/// Decides `rect_intersects_poly` exactly.
pub fn rect_intersects_poly_val(r: CellRect, poly: &Polygon) -> (b: bool)
    requires
        valid_polygon(poly@),
        valid_rect(r),
    ensures
        b == rect_intersects_poly(r, poly@),
{
    let mut k: usize = 0;
    while k < 4
        invariant
            0 <= k <= 4,
            valid_polygon(poly@),
            valid_rect(r),
            forall|j: int| 0 <= j < k ==> !in_polygon(#[trigger] corner(r, j), poly@),
        decreases 4 - k,
    {
        if point_in_polygon(corner_val(r, k), poly) {
            return true;
        }
        k = k + 1;
    }
    any_vertex_in_rect_val(poly, r) || any_edge_touches_rect_val(poly, r)
}

/// Decides `rect_within_poly` exactly.
pub fn rect_within_poly_val(r: CellRect, poly: &Polygon) -> (b: bool)
    requires
        valid_polygon(poly@),
        valid_rect(r),
    ensures
        b == rect_within_poly(r, poly@),
{
    let mut k: usize = 0;
    while k < 4
        invariant
            0 <= k <= 4,
            valid_polygon(poly@),
            valid_rect(r),
            forall|j: int| 0 <= j < k ==> in_polygon(#[trigger] corner(r, j), poly@),
        decreases 4 - k,
    {
        if !point_in_polygon(corner_val(r, k), poly) {
            return false;
        }
        k = k + 1;
    }
    !any_vertex_in_rect_val(poly, r) && !any_edge_touches_rect_val(poly, r)
}

} // verus!
