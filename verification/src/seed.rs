//! The seed locator: a deterministic search for a point inside a polygon,
//! used to anchor the coverage flood fill.
//!
//! Candidate points are probed in a fixed order: the vertex centroid, a
//! twelve-direction star around it at two radii derived from the bounding
//! box, the bounding-box center, and a four-by-four interior grid of the
//! bounding box.  The first candidate inside the polygon wins.  No randomness
//! and no trigonometry: the star directions are a fixed integer table.

use vstd::prelude::*;
use vstd::arithmetic::div_mod::{
    lemma_div_is_ordered, lemma_div_multiples_vanish, lemma_div_pos_is_pos,
    lemma_fundamental_div_mod, lemma_mod_bound,
};
use vstd::arithmetic::mul::lemma_mul_inequality;

use crate::{GeoPoint, valid_point, COORD_MAX};
use crate::geometry::{PolyRings, Polygon, valid_polygon, valid_ring, in_polygon, point_in_polygon};

verus! {

/// Divisor for the fine star radius: offsets are about a millionth of the
/// bounding-box span (the direction table is scaled by 1000).
pub const STAR_DENOM_FINE: u64 = 1_000_000_000;

/// Divisor for the coarse star radius: offsets are about a ten-thousandth of
/// the bounding-box span.
pub const STAR_DENOM_COARSE: u64 = 10_000_000;

/// Minimum of the `x` coordinates of the first `n` ring points.
pub open spec fn ring_min_x(r: Seq<GeoPoint>, n: int) -> int
    decreases n,
{
    if n <= 1 {
        r[0].x as int
    } else if r[n - 1].x as int <= ring_min_x(r, n - 1) {
        r[n - 1].x as int
    } else {
        ring_min_x(r, n - 1)
    }
}

pub open spec fn ring_max_x(r: Seq<GeoPoint>, n: int) -> int
    decreases n,
{
    if n <= 1 {
        r[0].x as int
    } else if r[n - 1].x as int >= ring_max_x(r, n - 1) {
        r[n - 1].x as int
    } else {
        ring_max_x(r, n - 1)
    }
}

pub open spec fn ring_min_y(r: Seq<GeoPoint>, n: int) -> int
    decreases n,
{
    if n <= 1 {
        r[0].y as int
    } else if r[n - 1].y as int <= ring_min_y(r, n - 1) {
        r[n - 1].y as int
    } else {
        ring_min_y(r, n - 1)
    }
}

pub open spec fn ring_max_y(r: Seq<GeoPoint>, n: int) -> int
    decreases n,
{
    if n <= 1 {
        r[0].y as int
    } else if r[n - 1].y as int >= ring_max_y(r, n - 1) {
        r[n - 1].y as int
    } else {
        ring_max_y(r, n - 1)
    }
}

/// Bounding box of the exterior ring, as west/south/east/north bounds.
pub open spec fn bbox_min_x(pr: PolyRings) -> int {
    ring_min_x(pr.exterior, pr.exterior.len() as int)
}

pub open spec fn bbox_max_x(pr: PolyRings) -> int {
    ring_max_x(pr.exterior, pr.exterior.len() as int)
}

pub open spec fn bbox_min_y(pr: PolyRings) -> int {
    ring_min_y(pr.exterior, pr.exterior.len() as int)
}

pub open spec fn bbox_max_y(pr: PolyRings) -> int {
    ring_max_y(pr.exterior, pr.exterior.len() as int)
}

proof fn lemma_ring_min_max_bounds(r: Seq<GeoPoint>, n: int)
    requires
        1 <= n <= r.len(),
        forall|i: int| 0 <= i < r.len() ==> valid_point(#[trigger] r[i]),
    ensures
        0 <= ring_min_x(r, n) <= COORD_MAX,
        0 <= ring_max_x(r, n) <= COORD_MAX,
        0 <= ring_min_y(r, n) <= COORD_MAX,
        0 <= ring_max_y(r, n) <= COORD_MAX,
        ring_min_x(r, n) <= ring_max_x(r, n),
        ring_min_y(r, n) <= ring_max_y(r, n),
    decreases n,
{
    if n > 1 {
        lemma_ring_min_max_bounds(r, n - 1);
    }
}

/// The bounding-box center, rounding down.
pub open spec fn bbox_center(pr: PolyRings) -> GeoPoint {
    GeoPoint {
        x: ((bbox_min_x(pr) + bbox_max_x(pr)) / 2) as u32,
        y: ((bbox_min_y(pr) + bbox_max_y(pr)) / 2) as u32,
    }
}

/// Sum of the `x` coordinates of the first `n` ring points.
pub open spec fn ring_sum_x(r: Seq<GeoPoint>, n: int) -> int
    decreases n,
{
    if n <= 0 {
        0
    } else {
        ring_sum_x(r, n - 1) + r[n - 1].x as int
    }
}

pub open spec fn ring_sum_y(r: Seq<GeoPoint>, n: int) -> int
    decreases n,
{
    if n <= 0 {
        0
    } else {
        ring_sum_y(r, n - 1) + r[n - 1].y as int
    }
}

proof fn lemma_ring_sum_bounds(r: Seq<GeoPoint>, n: int)
    requires
        0 <= n <= r.len(),
        forall|i: int| 0 <= i < r.len() ==> valid_point(#[trigger] r[i]),
    ensures
        0 <= ring_sum_x(r, n) <= n * (COORD_MAX as int),
        0 <= ring_sum_y(r, n) <= n * (COORD_MAX as int),
    decreases n,
{
    if n > 0 {
        lemma_ring_sum_bounds(r, n - 1);
        assert((n - 1) * (COORD_MAX as int) + COORD_MAX as int == n * (COORD_MAX as int))
            by (nonlinear_arith);
    }
}

/// The average of the exterior ring's corners (the closing duplicate point is
/// not counted): the centroid probe that anchors the star.
pub open spec fn vertex_centroid(pr: PolyRings) -> GeoPoint {
    let n = pr.exterior.len() - 1;
    GeoPoint {
        x: (ring_sum_x(pr.exterior, n) / n) as u32,
        y: (ring_sum_y(pr.exterior, n) / n) as u32,
    }
}

/// Horizontal component of star direction `k`, scaled by 1000.
pub open spec fn star_dx(k: int) -> int {
    if k == 0 {
        1000
    } else if k == 1 {
        866
    } else if k == 2 {
        500
    } else if k == 3 {
        0
    } else if k == 4 {
        -500
    } else if k == 5 {
        -866
    } else if k == 6 {
        -1000
    } else if k == 7 {
        -866
    } else if k == 8 {
        -500
    } else if k == 9 {
        0
    } else if k == 10 {
        500
    } else {
        866
    }
}

/// Vertical component of star direction `k`, scaled by 1000.
pub open spec fn star_dy(k: int) -> int {
    if k == 0 {
        0
    } else if k == 1 {
        500
    } else if k == 2 {
        866
    } else if k == 3 {
        1000
    } else if k == 4 {
        866
    } else if k == 5 {
        500
    } else if k == 6 {
        0
    } else if k == 7 {
        -500
    } else if k == 8 {
        -866
    } else if k == 9 {
        -1000
    } else if k == 10 {
        -866
    } else {
        -500
    }
}

/// Moves a coordinate by a non-negative offset in the given direction,
/// clamping to the representable range.
pub open spec fn shift_coord(v: int, mag: int, neg: bool) -> int {
    if neg {
        if mag > v {
            0
        } else {
            v - mag
        }
    } else {
        if v + mag > COORD_MAX as int {
            COORD_MAX as int
        } else {
            v + mag
        }
    }
}

/// Star probe `k` around the vertex centroid.  Each axis is offset by the
/// direction component scaled by that axis's bounding-box span over `denom`,
/// so thin polygons are probed inside their own extent.
pub open spec fn star_probe(pr: PolyRings, denom: int, k: int) -> GeoPoint {
    let c = vertex_centroid(pr);
    let bx = bbox_max_x(pr) - bbox_min_x(pr);
    let by = bbox_max_y(pr) - bbox_min_y(pr);
    let dx = star_dx(k);
    let dy = star_dy(k);
    let mx = (if dx < 0 {
        -dx
    } else {
        dx
    }) * bx / denom;
    let my = (if dy < 0 {
        -dy
    } else {
        dy
    }) * by / denom;
    GeoPoint {
        x: shift_coord(c.x as int, mx, dx < 0) as u32,
        y: shift_coord(c.y as int, my, dy < 0) as u32,
    }
}

/// Probe `g` of the four-by-four interior grid of the bounding box.
pub open spec fn grid_probe(pr: PolyRings, g: int) -> GeoPoint {
    let bx = bbox_max_x(pr) - bbox_min_x(pr);
    let by = bbox_max_y(pr) - bbox_min_y(pr);
    let ix = g / 4 + 1;
    let iy = g % 4 + 1;
    GeoPoint {
        x: (bbox_min_x(pr) + (bx / 5) * ix) as u32,
        y: (bbox_min_y(pr) + (by / 5) * iy) as u32,
    }
}

/// All probe points in the order they are tried.
pub open spec fn seed_candidates(pr: PolyRings) -> Seq<GeoPoint> {
    seq![vertex_centroid(pr)] + Seq::new(12, |k: int| star_probe(pr, STAR_DENOM_FINE as int, k))
        + Seq::new(12, |k: int| star_probe(pr, STAR_DENOM_COARSE as int, k)) + seq![
        bbox_center(pr),
    ] + Seq::new(16, |g: int| grid_probe(pr, g))
}

/// The first candidate from `i` on that lies inside the polygon.
pub open spec fn first_inside(cands: Seq<GeoPoint>, pr: PolyRings, i: int) -> Option<GeoPoint>
    decreases cands.len() - i,
{
    if i < 0 || i >= cands.len() {
        None
    } else if in_polygon(cands[i], pr) {
        Some(cands[i])
    } else {
        first_inside(cands, pr, i + 1)
    }
}

/// What the seed locator returns: the first probe inside the polygon.
pub open spec fn seed_point_spec(pr: PolyRings) -> Option<GeoPoint> {
    first_inside(seed_candidates(pr), pr, 0)
}

/// The point the coverage search is anchored at: the located seed, or the
/// bounding-box center when every probe missed.
pub open spec fn search_seed(pr: PolyRings) -> GeoPoint {
    match seed_point_spec(pr) {
        Some(pt) => pt,
        None => bbox_center(pr),
    }
}

/// Computes the exterior bounding box: west, south, east, north.
pub fn poly_bbox(poly: &Polygon) -> (r: (u32, u32, u32, u32))
    requires
        valid_polygon(poly@),
    ensures
        r.0 as int == bbox_min_x(poly@),
        r.1 as int == bbox_min_y(poly@),
        r.2 as int == bbox_max_x(poly@),
        r.3 as int == bbox_max_y(poly@),
        r.0 <= r.2 <= COORD_MAX,
        r.1 <= r.3 <= COORD_MAX,
{
    let ext = &poly.exterior;
    let n: usize = ext.len();
    let mut min_x: u32 = ext[0].x;
    let mut max_x: u32 = ext[0].x;
    let mut min_y: u32 = ext[0].y;
    let mut max_y: u32 = ext[0].y;
    let mut i: usize = 1;
    while i < n
        invariant
            1 <= i <= n,
            n == ext@.len() >= 4,
            valid_ring(ext@),
            min_x as int == ring_min_x(ext@, i as int),
            max_x as int == ring_max_x(ext@, i as int),
            min_y as int == ring_min_y(ext@, i as int),
            max_y as int == ring_max_y(ext@, i as int),
        decreases n - i,
    {
        let p = ext[i];
        if p.x < min_x {
            min_x = p.x;
        }
        if p.x > max_x {
            max_x = p.x;
        }
        if p.y < min_y {
            min_y = p.y;
        }
        if p.y > max_y {
            max_y = p.y;
        }
        i = i + 1;
    }
    proof {
        lemma_ring_min_max_bounds(ext@, n as int);
    }
    (min_x, min_y, max_x, max_y)
}

/// Computes the bounding-box center.
pub fn bbox_center_val(poly: &Polygon) -> (c: GeoPoint)
    requires
        valid_polygon(poly@),
    ensures
        c == bbox_center(poly@),
        valid_point(c),
{
    let (min_x, min_y, max_x, max_y) = poly_bbox(poly);
    let cx: u32 = ((min_x as u64 + max_x as u64) / 2) as u32;
    let cy: u32 = ((min_y as u64 + max_y as u64) / 2) as u32;
    GeoPoint { x: cx, y: cy }
}

/// Computes the vertex centroid of the exterior ring.
pub fn vertex_centroid_val(poly: &Polygon) -> (c: GeoPoint)
    requires
        valid_polygon(poly@),
    ensures
        c == vertex_centroid(poly@),
        valid_point(c),
{
    let ext = &poly.exterior;
    let n: usize = ext.len() - 1;
    let mut sx: u128 = 0;
    let mut sy: u128 = 0;
    let mut i: usize = 0;
    while i < n
        invariant
            0 <= i <= n,
            n == ext@.len() - 1,
            valid_ring(ext@),
            sx as int == ring_sum_x(ext@, i as int),
            sy as int == ring_sum_y(ext@, i as int),
            sx <= (i as u128) * (COORD_MAX as u128),
            sy <= (i as u128) * (COORD_MAX as u128),
        decreases n - i,
    {
        let p = ext[i];
        proof {
            assert((i as int) * (COORD_MAX as int) + COORD_MAX as int == (i + 1) * (
            COORD_MAX as int)) by (nonlinear_arith);
        }
        sx = sx + p.x as u128;
        sy = sy + p.y as u128;
        i = i + 1;
    }
    proof {
        lemma_ring_sum_bounds(ext@, n as int);
        lemma_div_is_ordered(sx as int, (n as int) * (COORD_MAX as int), n as int);
        lemma_div_is_ordered(sy as int, (n as int) * (COORD_MAX as int), n as int);
        lemma_div_multiples_vanish(COORD_MAX as int, n as int);
        lemma_div_pos_is_pos(sx as int, n as int);
        lemma_div_pos_is_pos(sy as int, n as int);
    }
    let cx: u32 = (sx / n as u128) as u32;
    let cy: u32 = (sy / n as u128) as u32;
    GeoPoint { x: cx, y: cy }
}

/// The star direction table, scaled by 1000.
fn star_dir(k: usize) -> (d: (i64, i64))
    requires
        k < 12,
    ensures
        d.0 as int == star_dx(k as int),
        d.1 as int == star_dy(k as int),
{
    if k == 0 {
        (1000, 0)
    } else if k == 1 {
        (866, 500)
    } else if k == 2 {
        (500, 866)
    } else if k == 3 {
        (0, 1000)
    } else if k == 4 {
        (-500, 866)
    } else if k == 5 {
        (-866, 500)
    } else if k == 6 {
        (-1000, 0)
    } else if k == 7 {
        (-866, -500)
    } else if k == 8 {
        (-500, -866)
    } else if k == 9 {
        (0, -1000)
    } else if k == 10 {
        (500, -866)
    } else {
        (866, -500)
    }
}

fn shift_coord_val(v: u32, mag: u64, neg: bool) -> (r: u32)
    requires
        v <= COORD_MAX,
        mag <= 0x100_0000_0000_0000,
    ensures
        r as int == shift_coord(v as int, mag as int, neg),
        r <= COORD_MAX,
{
    if neg {
        if mag > v as u64 {
            0
        } else {
            v - mag as u32
        }
    } else {
        let s: u64 = v as u64 + mag;
        if s > COORD_MAX as u64 {
            COORD_MAX
        } else {
            s as u32
        }
    }
}

/// Computes star probe `k` at the radius given by `denom`.
fn star_probe_val(poly: &Polygon, denom: u64, k: usize) -> (p: GeoPoint)
    requires
        valid_polygon(poly@),
        k < 12,
        denom == STAR_DENOM_FINE || denom == STAR_DENOM_COARSE,
    ensures
        p == star_probe(poly@, denom as int, k as int),
        valid_point(p),
{
    let c = vertex_centroid_val(poly);
    let (min_x, min_y, max_x, max_y) = poly_bbox(poly);
    let bx: u64 = (max_x - min_x) as u64;
    let by: u64 = (max_y - min_y) as u64;
    let (dx, dy) = star_dir(k);
    let ax: u64 = if dx < 0 {
        (-dx) as u64
    } else {
        dx as u64
    };
    let ay: u64 = if dy < 0 {
        (-dy) as u64
    } else {
        dy as u64
    };
    proof {
        assert(ax * bx <= 1000 * (COORD_MAX as int)) by (nonlinear_arith)
            requires
                0 <= ax <= 1000,
                0 <= bx <= COORD_MAX as int,
        ;
        assert(ay * by <= 1000 * (COORD_MAX as int)) by (nonlinear_arith)
            requires
                0 <= ay <= 1000,
                0 <= by <= COORD_MAX as int,
        ;
        lemma_div_is_ordered(ax as int * bx as int, 1000 * (COORD_MAX as int), denom as int);
        lemma_div_is_ordered(ay as int * by as int, 1000 * (COORD_MAX as int), denom as int);
        lemma_div_pos_is_pos(ax as int * bx as int, denom as int);
        lemma_div_pos_is_pos(ay as int * by as int, denom as int);
    }
    let mx: u64 = ax * bx / denom;
    let my: u64 = ay * by / denom;
    let px = shift_coord_val(c.x, mx, dx < 0);
    let py = shift_coord_val(c.y, my, dy < 0);
    GeoPoint { x: px, y: py }
}

/// Computes interior grid probe `g`.
fn grid_probe_val(poly: &Polygon, g: usize) -> (p: GeoPoint)
    requires
        valid_polygon(poly@),
        g < 16,
    ensures
        p == grid_probe(poly@, g as int),
        valid_point(p),
{
    let (min_x, min_y, max_x, max_y) = poly_bbox(poly);
    let bx: u64 = (max_x - min_x) as u64;
    let by: u64 = (max_y - min_y) as u64;
    let ix: u64 = (g / 4 + 1) as u64;
    let iy: u64 = (g % 4 + 1) as u64;
    let sx: u64 = bx / 5;
    let sy: u64 = by / 5;
    proof {
        lemma_mul_inequality(ix as int, 5, bx as int / 5);
        lemma_mul_inequality(iy as int, 5, by as int / 5);
        lemma_fundamental_div_mod(bx as int, 5);
        lemma_fundamental_div_mod(by as int, 5);
        lemma_mod_bound(bx as int, 5);
        lemma_mod_bound(by as int, 5);
        lemma_div_pos_is_pos(bx as int, 5);
        lemma_div_pos_is_pos(by as int, 5);
        assert(5 * (bx as int / 5) == (bx as int / 5) * 5) by (nonlinear_arith);
        assert(5 * (by as int / 5) == (by as int / 5) * 5) by (nonlinear_arith);
        assert((ix as int) * (bx as int / 5) == (bx as int / 5) * (ix as int)) by (nonlinear_arith);
        assert((iy as int) * (by as int / 5) == (by as int / 5) * (iy as int)) by (nonlinear_arith);
        assert((bx as int / 5) * (ix as int) <= bx as int);
        assert((by as int / 5) * (iy as int) <= by as int);
    }
    let px: u64 = min_x as u64 + sx * ix;
    let py: u64 = min_y as u64 + sy * iy;
    GeoPoint { x: px as u32, y: py as u32 }
}

/// Builds the candidate list in probe order.
fn seed_candidates_val(poly: &Polygon) -> (v: Vec<GeoPoint>)
    requires
        valid_polygon(poly@),
    ensures
        v@ == seed_candidates(poly@),
        forall|i: int| 0 <= i < v@.len() ==> valid_point(#[trigger] v@[i]),
{
    let ghost pr = poly@;
    let mut v: Vec<GeoPoint> = Vec::new();
    v.push(vertex_centroid_val(poly));
    let mut k: usize = 0;
    while k < 12
        invariant
            0 <= k <= 12,
            valid_polygon(pr),
            pr == poly@,
            v@ =~= seq![vertex_centroid(pr)] + Seq::new(
                k as nat,
                |q: int| star_probe(pr, STAR_DENOM_FINE as int, q),
            ),
            forall|i: int| 0 <= i < v@.len() ==> valid_point(#[trigger] v@[i]),
        decreases 12 - k,
    {
        v.push(star_probe_val(poly, STAR_DENOM_FINE, k));
        k = k + 1;
    }
    let mut k2: usize = 0;
    while k2 < 12
        invariant
            0 <= k2 <= 12,
            valid_polygon(pr),
            pr == poly@,
            v@ =~= seq![vertex_centroid(pr)] + Seq::new(
                12,
                |q: int| star_probe(pr, STAR_DENOM_FINE as int, q),
            ) + Seq::new(k2 as nat, |q: int| star_probe(pr, STAR_DENOM_COARSE as int, q)),
            forall|i: int| 0 <= i < v@.len() ==> valid_point(#[trigger] v@[i]),
        decreases 12 - k2,
    {
        v.push(star_probe_val(poly, STAR_DENOM_COARSE, k2));
        k2 = k2 + 1;
    }
    v.push(bbox_center_val(poly));
    let mut g: usize = 0;
    while g < 16
        invariant
            0 <= g <= 16,
            valid_polygon(pr),
            pr == poly@,
            v@ =~= seq![vertex_centroid(pr)] + Seq::new(
                12,
                |q: int| star_probe(pr, STAR_DENOM_FINE as int, q),
            ) + Seq::new(12, |q: int| star_probe(pr, STAR_DENOM_COARSE as int, q)) + seq![
                bbox_center(pr),
            ] + Seq::new(g as nat, |q: int| grid_probe(pr, q)),
            forall|i: int| 0 <= i < v@.len() ==> valid_point(#[trigger] v@[i]),
        decreases 16 - g,
    {
        v.push(grid_probe_val(poly, g));
        g = g + 1;
    }
    proof {
        assert(v@ =~= seed_candidates(pr));
    }
    v
}

proof fn lemma_first_inside_none(cands: Seq<GeoPoint>, pr: PolyRings, j: int, i: int)
    requires
        first_inside(cands, pr, j) is None,
        0 <= j <= i < cands.len(),
    ensures
        !in_polygon(cands[i], pr),
    decreases i - j,
{
    if j < i {
        lemma_first_inside_none(cands, pr, j + 1, i);
    }
}

/// The locator comes back empty only when every probe missed: no candidate
/// point lies inside the polygon.
pub proof fn lemma_no_seed_means_all_probes_missed(pr: PolyRings, i: int)
    requires
        seed_point_spec(pr) is None,
        0 <= i < seed_candidates(pr).len(),
    ensures
        !in_polygon(seed_candidates(pr)[i], pr),
{
    lemma_first_inside_none(seed_candidates(pr), pr, 0, i);
}

/// The deterministic interior-point search: probes the fixed candidate list
/// and returns the first point inside the polygon, if any probe hits.
pub fn seed_interior_point_fast(poly: &Polygon) -> (r: Option<GeoPoint>)
    requires
        valid_polygon(poly@),
    ensures
        r == seed_point_spec(poly@),
        r matches Some(pt) ==> in_polygon(pt, poly@) && valid_point(pt),
{
    let cands = seed_candidates_val(poly);
    let n: usize = cands.len();
    let mut i: usize = 0;
    while i < n
        invariant
            0 <= i <= n,
            n == cands@.len(),
            valid_polygon(poly@),
            cands@ == seed_candidates(poly@),
            forall|j: int| 0 <= j < cands@.len() ==> valid_point(#[trigger] cands@[j]),
            first_inside(cands@, poly@, 0) == first_inside(cands@, poly@, i as int),
        decreases n - i,
    {
        if point_in_polygon(cands[i], poly) {
            return Some(cands[i]);
        }
        i = i + 1;
    }
    None
}

} // verus!
