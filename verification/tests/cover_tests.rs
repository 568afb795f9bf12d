use std::collections::HashSet;

use geo::{Contains, Intersects};
use geo_types::{Coord, LineString, Polygon as GeoPolygon, Rect as GeoRect};

use geohash_polygon::cover::cover_one;
use geohash_polygon::cover::polygons_to_geohashes;
use geohash_polygon::geometry::{point_in_polygon, Polygon};
use geohash_polygon::grid::{cell_code, cell_of_point_val, neighbor_cells_val};
use geohash_polygon::seed::seed_interior_point_fast;
use geohash_polygon::{GeoPoint, GeohashError};

const SCALE: f64 = (1u64 << 30) as f64;

fn fx(lon: f64) -> u32 {
    (((lon + 180.0) / 360.0) * SCALE).round() as u32
}

fn fy(lat: f64) -> u32 {
    (((lat + 90.0) / 180.0) * SCALE).round() as u32
}

fn pt(lon: f64, lat: f64) -> GeoPoint {
    GeoPoint { x: fx(lon), y: fy(lat) }
}

fn ring(coords: &[(f64, f64)]) -> Vec<GeoPoint> {
    coords.iter().map(|&(lon, lat)| pt(lon, lat)).collect()
}

fn polygon(exterior: &[(f64, f64)], holes: &[&[(f64, f64)]]) -> Polygon {
    Polygon {
        exterior: ring(exterior),
        holes: holes.iter().map(|h| ring(h)).collect(),
    }
}

fn unit_square() -> Polygon {
    polygon(&[(0.0, 0.0), (1.0, 0.0), (1.0, 1.0), (0.0, 1.0), (0.0, 0.0)], &[])
}

fn l_shape() -> Polygon {
    polygon(
        &[
            (0.2, 0.2),
            (4.3, 0.2),
            (4.3, 2.2),
            (2.2, 2.2),
            (2.2, 4.1),
            (0.2, 4.1),
            (0.2, 0.2),
        ],
        &[],
    )
}

fn l_shape_geo() -> GeoPolygon<f64> {
    GeoPolygon::new(
        LineString::from(vec![
            (0.2, 0.2),
            (4.3, 0.2),
            (4.3, 2.2),
            (2.2, 2.2),
            (2.2, 4.1),
            (0.2, 4.1),
            (0.2, 0.2),
        ]),
        vec![],
    )
}

fn holed_polygon() -> Polygon {
    polygon(
        &[(0.0, 0.0), (4.0, 0.0), (4.0, 4.0), (0.0, 4.0), (0.0, 0.0)],
        &[&[(1.0, 1.0), (3.0, 1.0), (3.0, 3.0), (1.0, 3.0), (1.0, 1.0)]],
    )
}

fn cover_set_of(poly: &Polygon, precision: usize, full: bool) -> HashSet<String> {
    cover_one(poly, precision, full)
        .expect("covering must succeed on valid input")
        .into_iter()
        .collect()
}

#[test]
fn unit_square_touching_precision_one() {
    let result = cover_set_of(&unit_square(), 1, false);
    assert!(!result.is_empty());
    for code in &result {
        let bbox = geohash::decode_bbox(code).expect("valid code");
        let min = bbox.min();
        let max = bbox.max();
        assert!(
            min.x <= 1.0 && max.x >= 0.0 && min.y <= 1.0 && max.y >= 0.0,
            "cell {code} does not intersect the unit square"
        );
    }
}

#[test]
fn unit_square_touching_includes_boundary_neighbors() {
    let result = cover_set_of(&unit_square(), 1, false);
    // The square sits in one precision-1 cell and touches the three cells
    // across its west and south edges.
    assert_eq!(result.len(), 4);
}

#[test]
fn fully_contained_is_strict_subset_of_touching() {
    let poly = unit_square();
    let touching = cover_set_of(&poly, 5, false);
    let contained = cover_set_of(&poly, 5, true);
    assert!(!contained.is_empty());
    assert!(contained.is_subset(&touching));
    assert!(contained.len() < touching.len());
}

#[test]
fn contained_subset_touching_on_l_shape() {
    let poly = l_shape();
    let touching = cover_set_of(&poly, 4, false);
    let contained = cover_set_of(&poly, 4, true);
    assert!(contained.is_subset(&touching));
}

#[test]
fn hole_interior_cells_are_rejected() {
    let poly = holed_polygon();
    let contained = cover_set_of(&poly, 4, true);
    let touching = cover_set_of(&poly, 4, false);
    // A cell wholly inside the hole is in neither result.
    let hole_cell = geohash::encode(Coord { x: 2.0, y: 2.0 }, 4).unwrap();
    assert!(!contained.contains(&hole_cell));
    assert!(!touching.contains(&hole_cell));
    // Cells in the solid region between the rings are still accepted.
    let ring_cell = geohash::encode(Coord { x: 0.53, y: 2.02 }, 4).unwrap();
    assert!(contained.contains(&ring_cell));
    // A cell straddling the hole boundary touches the polygon but is not
    // fully contained in it.
    let straddling = geohash::encode(Coord { x: 1.0, y: 2.02 }, 4).unwrap();
    assert!(touching.contains(&straddling));
    assert!(!contained.contains(&straddling));
}

#[test]
fn degenerate_polygon_gives_empty_set_without_error() {
    let degenerate = polygon(&[(0.0, 0.0), (2.0, 0.0), (1.0, 0.0), (0.0, 0.0)], &[]);
    let result = cover_one(&degenerate, 5, true).expect("no error for degenerate input");
    assert!(result.is_empty());
}

#[test]
fn cover_one_is_idempotent() {
    let poly = l_shape();
    let first = cover_set_of(&poly, 4, false);
    let second = cover_set_of(&poly, 4, false);
    assert_eq!(first, second);
    let first_full = cover_set_of(&poly, 4, true);
    let second_full = cover_set_of(&poly, 4, true);
    assert_eq!(first_full, second_full);
}

#[test]
fn touching_cover_matches_geo_brute_force() {
    let ours = cover_set_of(&l_shape(), 3, false);
    let geo_poly = l_shape_geo();
    // Precision 3: 2^8 columns of 1.40625 degrees, 2^7 rows of 1.40625
    // degrees.  Scan a window of the grid that amply covers the polygon and
    // classify every cell with the geo crate's own intersection predicate.
    let cell_w = 360.0 / 256.0;
    let cell_h = 180.0 / 128.0;
    let mut expected = HashSet::new();
    for ix in 120..140 {
        for iy in 55..75 {
            let lon0 = -180.0 + ix as f64 * cell_w;
            let lat0 = -90.0 + iy as f64 * cell_h;
            let rect = GeoRect::new(
                Coord { x: lon0, y: lat0 },
                Coord { x: lon0 + cell_w, y: lat0 + cell_h },
            );
            if geo_poly.intersects(&rect.to_polygon()) {
                let center = Coord { x: lon0 + cell_w / 2.0, y: lat0 + cell_h / 2.0 };
                expected.insert(geohash::encode(center, 3).unwrap());
            }
        }
    }
    assert_eq!(ours, expected);
}

#[test]
fn holed_cover_matches_geo_brute_force() {
    // Vertices are kept away from every precision-4 cell boundary so that
    // the fixed-point rounding of the input cannot flip any verdict.
    let outer = [
        (0.15, 0.15),
        (3.85, 0.15),
        (3.85, 3.9),
        (0.15, 3.9),
        (0.15, 0.15),
    ];
    let hole = [(1.1, 1.05), (2.9, 1.05), (2.9, 2.95), (1.1, 2.95), (1.1, 1.05)];
    let ours_poly = polygon(&outer, &[&hole]);
    let geo_poly = GeoPolygon::new(
        LineString::from(outer.to_vec()),
        vec![LineString::from(hole.to_vec())],
    );
    let ours_touching = cover_set_of(&ours_poly, 4, false);
    let ours_contained = cover_set_of(&ours_poly, 4, true);
    // Precision 4: 2^10 columns of 0.3515625 degrees, 2^10 rows of
    // 0.17578125 degrees.
    let cell_w = 360.0 / 1024.0;
    let cell_h = 180.0 / 1024.0;
    let mut expected_touching = HashSet::new();
    let mut expected_contained = HashSet::new();
    for ix in 505..530 {
        for iy in 505..545 {
            let lon0 = -180.0 + ix as f64 * cell_w;
            let lat0 = -90.0 + iy as f64 * cell_h;
            let rect = GeoRect::new(
                Coord { x: lon0, y: lat0 },
                Coord { x: lon0 + cell_w, y: lat0 + cell_h },
            );
            let center = Coord { x: lon0 + cell_w / 2.0, y: lat0 + cell_h / 2.0 };
            let code = geohash::encode(center, 4).unwrap();
            if geo_poly.intersects(&rect.to_polygon()) {
                expected_touching.insert(code.clone());
            }
            if geo_poly.contains(&rect.to_polygon()) {
                expected_contained.insert(code);
            }
        }
    }
    assert_eq!(ours_touching, expected_touching);
    assert_eq!(ours_contained, expected_contained);
}

#[test]
fn invalid_precision_is_reported() {
    let poly = unit_square();
    assert_eq!(cover_one(&poly, 0, false), Err(GeohashError::InvalidPrecision));
    assert_eq!(cover_one(&poly, 13, false), Err(GeohashError::InvalidPrecision));
}

#[test]
fn malformed_polygon_is_reported() {
    let open_ring = Polygon {
        exterior: ring(&[(0.0, 0.0), (1.0, 0.0), (1.0, 1.0), (0.0, 1.0)]),
        holes: vec![],
    };
    assert_eq!(cover_one(&open_ring, 5, false), Err(GeohashError::CodecError));
    let short_ring = Polygon { exterior: ring(&[(0.0, 0.0), (1.0, 0.0), (0.0, 0.0)]), holes: vec![] };
    assert_eq!(cover_one(&short_ring, 5, false), Err(GeohashError::CodecError));
}

#[test]
fn cell_code_has_expected_value() {
    // A known geohash: the example the geohash crate documents.
    let x = ((-120.6623 * 0.002777777777777778 + 1.5 - 1.0) * SCALE).floor() as u32;
    let y = ((35.3003 * 0.005555555555555556 + 1.5 - 1.0) * SCALE).floor() as u32;
    let cell = cell_of_point_val(GeoPoint { x, y }, 5);
    assert_eq!(cell_code(cell, 5), "9q60y");
}

#[test]
fn cell_codes_match_geohash_crate() {
    let samples = [
        (13.377, 52.516),
        (-120.6623, 35.3003),
        (151.215, -33.857),
        (-43.18, -22.97),
        (0.1278, 51.5074),
        (139.69, 35.68),
    ];
    for &(lon, lat) in &samples {
        for precision in 1..=12usize {
            // Floor the coordinate fractions exactly as the geohash crate
            // does, so the point falls in the same cell at every precision.
            let x = ((lon * 0.002777777777777778 + 1.5 - 1.0) * SCALE).floor() as u32;
            let y = ((lat * 0.005555555555555556 + 1.5 - 1.0) * SCALE).floor() as u32;
            let cell = cell_of_point_val(GeoPoint { x, y }, precision);
            let ours = cell_code(cell, precision);
            let theirs = geohash::encode(Coord { x: lon, y: lat }, precision).unwrap();
            assert_eq!(ours, theirs, "code mismatch at {lon},{lat} precision {precision}");
        }
    }
}

#[test]
fn neighbor_codes_match_geohash_crate() {
    let precision = 6usize;
    let cell = cell_of_point_val(pt(13.377, 52.516), precision);
    let code = cell_code(cell, precision);
    let ours: HashSet<String> = neighbor_cells_val(cell, precision)
        .into_iter()
        .map(|n| cell_code(n, precision))
        .collect();
    let n = geohash::neighbors(&code).unwrap();
    let theirs: HashSet<String> =
        [n.sw, n.s, n.se, n.w, n.e, n.nw, n.n, n.ne].into_iter().collect();
    assert_eq!(ours, theirs);
}

#[test]
fn seed_point_lies_inside_polygon() {
    let poly = unit_square();
    let seed = seed_interior_point_fast(&poly).expect("square has an interior point");
    assert!(point_in_polygon(seed, &poly));

    let holed = holed_polygon();
    let seed2 = seed_interior_point_fast(&holed).expect("holed polygon has an interior point");
    assert!(point_in_polygon(seed2, &holed));
}

#[test]
fn multi_polygon_union_deduplicates() {
    let a = unit_square();
    let b = polygon(&[(0.5, 0.5), (1.5, 0.5), (1.5, 1.5), (0.5, 1.5), (0.5, 0.5)], &[]);
    let both = polygons_to_geohashes(&vec![a, b], 5, false).unwrap();
    let mut seen = HashSet::new();
    for code in &both {
        assert!(seen.insert(code.clone()), "duplicate code {code} in union");
    }
    let a2 = unit_square();
    let b2 = polygon(&[(0.5, 0.5), (1.5, 0.5), (1.5, 1.5), (0.5, 1.5), (0.5, 0.5)], &[]);
    let set_a: HashSet<String> = cover_set_of(&a2, 5, false);
    let set_b: HashSet<String> = cover_set_of(&b2, 5, false);
    let union: HashSet<String> = set_a.union(&set_b).cloned().collect();
    let both_set: HashSet<String> = both.into_iter().collect();
    assert_eq!(both_set, union);
}

#[test]
fn polygon_against_antimeridian_terminates() {
    // Cells in the first grid column are visited, so east/west neighbor
    // computation wraps around the antimeridian.
    let poly = polygon(
        &[
            (-179.95, 0.1),
            (-179.5, 0.1),
            (-179.5, 0.5),
            (-179.95, 0.5),
            (-179.95, 0.1),
        ],
        &[],
    );
    let result = cover_set_of(&poly, 3, false);
    assert!(!result.is_empty());
    for code in &result {
        let bbox = geohash::decode_bbox(code).unwrap();
        assert!(bbox.min().x <= -179.5 && bbox.max().x >= -179.95);
        assert!(bbox.min().y <= 0.5 && bbox.max().y >= 0.1);
    }
}

#[test]
fn polygon_near_south_pole_terminates() {
    // Cells in the bottom grid row have no southern neighbors.
    let poly = polygon(
        &[
            (10.1, -89.95),
            (10.6, -89.95),
            (10.6, -89.5),
            (10.1, -89.5),
            (10.1, -89.95),
        ],
        &[],
    );
    let result = cover_set_of(&poly, 3, false);
    assert!(!result.is_empty());
    for code in &result {
        let bbox = geohash::decode_bbox(code).unwrap();
        assert!(bbox.min().y <= -89.5);
    }
}

#[test]
fn empty_collection_gives_empty_set() {
    let none: Vec<Polygon> = vec![];
    let result = polygons_to_geohashes(&none, 6, false).unwrap();
    assert!(result.is_empty());
}

#[test]
fn invalid_member_fails_whole_collection() {
    let good = unit_square();
    let bad = Polygon { exterior: ring(&[(0.0, 0.0), (1.0, 0.0), (0.0, 0.0)]), holes: vec![] };
    assert_eq!(
        polygons_to_geohashes(&vec![good, bad], 5, false),
        Err(GeohashError::CodecError)
    );
}
