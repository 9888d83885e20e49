use front::border_cache::{
    BorderCache, BorderRefreshPayload, BorderRefreshResult, BORDER_LAYERS_MAX,
};
use front::borders::{
    resolution_distance, BorderLayer, BorderLine, BorderLineKind, BorderResolution, SpatialGrid,
};
use front::double::{parse_double, whole, widen, Double};
use front::frames::{RadarFrame, RadarTile};
use front::geo::{
    tile_bounds, tile_for_world, tiles_spiral_from, visible_tiles, world_span_at_zoom, Bounds,
    GeoPoint, TileCoord, WorldPoint,
};
use front::layers::{LayerId, LayerRegistry};
use front::viewport::{CentreRange, Viewport};
use std::sync::Arc;

fn d(x: f64) -> Double {
    Double::from_bits(x.to_bits())
}

fn f(x: Double) -> f64 {
    f64::from_bits(x.bits)
}

fn bounds(min_x: f64, max_x: f64, min_y: f64, max_y: f64) -> Bounds {
    Bounds { min_x: d(min_x), max_x: d(max_x), min_y: d(min_y), max_y: d(max_y) }
}

fn make_line(pts: &[(f64, f64)]) -> BorderLine {
    let points: Vec<WorldPoint> =
        pts.iter().map(|&(x, y)| WorldPoint { x: d(x), y: d(y) }).collect();
    let mut line = BorderLine {
        kind: BorderLineKind::Country,
        points,
        bbox: bounds(0.0, 0.0, 0.0, 0.0),
    };
    let e = line.extent();
    line.compute_bbox(d(f(e.min_x) + f64::EPSILON), d(f(e.min_y) + f64::EPSILON));
    line
}

fn tile(z: u8, x: u32, y: u32) -> RadarTile {
    RadarTile { coord: TileCoord { z, x, y }, size: 256, rows: Vec::new() }
}

fn frame(time: i64, z: u8, tiles: Vec<RadarTile>) -> RadarFrame {
    RadarFrame { time, path: format!("DBZH/{time}"), tiles, missing_tiles: 0, target_zoom: z }
}

#[test]
fn merge_tiles_at_same_zoom_merges() {
    let mut a = frame(100, 4, vec![tile(4, 0, 0), tile(4, 1, 0)]);
    let b = frame(100, 4, vec![tile(4, 1, 0), tile(4, 2, 0)]);
    a.merge_tiles(b);
    assert_eq!(a.tiles.len(), 3, "duplicate (1,0) is deduped");
    assert_eq!(a.target_zoom, 4);
}

#[test]
fn merge_tiles_at_different_zoom_evicts_stale() {
    let mut a = frame(100, 3, vec![tile(3, 0, 0), tile(3, 1, 1)]);
    let b = frame(100, 4, vec![tile(4, 5, 5), tile(4, 6, 6)]);
    a.merge_tiles(b);
    let zooms: Vec<u8> = a.tiles.iter().map(|t| t.coord.z).collect();
    assert!(zooms.iter().all(|&z| z == 4), "stale zoom-3 tiles must be evicted");
    assert_eq!(a.tiles.len(), 2);
    assert_eq!(a.target_zoom, 4);
}

#[test]
fn merge_tiles_with_different_time_replaces() {
    let mut a = frame(100, 4, vec![tile(4, 0, 0)]);
    let b = frame(200, 4, vec![tile(4, 1, 1)]);
    a.merge_tiles(b);
    assert_eq!(a.time, 200);
    assert_eq!(a.tiles.len(), 1);
}

#[test]
fn regions_visible_at_high_and_regional_zoom() {
    assert!(!BorderResolution::Low110m.includes_regions());
    assert!(!BorderResolution::Medium50m.includes_regions());
    assert!(BorderResolution::High10m.includes_regions());
    assert!(BorderResolution::Regional10m.includes_regions());
}

#[test]
fn spatial_grid_empty_lines() {
    let grid = SpatialGrid::build(&[]);
    let mut out = Vec::new();
    let mut seen = vec![0u8; 1];
    grid.lines_for_bounds(bounds(0.0, 1.0, 0.0, 1.0), &mut out, &mut seen);
    assert!(out.is_empty(), "no lines, no candidates");
}

#[test]
fn spatial_grid_single_line_found() {
    let lines = vec![make_line(&[(0.1, 0.2), (0.3, 0.4)])];
    let grid = SpatialGrid::build(&lines);
    let mut out = Vec::new();
    let mut seen = vec![0u8; 1];
    grid.lines_for_bounds(bounds(0.0, 0.5, 0.0, 0.5), &mut out, &mut seen);
    assert_eq!(out, vec![0], "line inside bounds must be found");
}

#[test]
fn spatial_grid_single_line_missed() {
    let lines = vec![make_line(&[(0.8, 0.8), (0.9, 0.9)])];
    let grid = SpatialGrid::build(&lines);
    let mut out = Vec::new();
    let mut seen = vec![0u8; 1];
    grid.lines_for_bounds(bounds(0.0, 0.5, 0.0, 0.5), &mut out, &mut seen);
    assert!(out.is_empty(), "line outside bounds must be skipped");
}

#[test]
fn spatial_grid_dedup_crossing_cell_boundary() {
    let lines = vec![make_line(&[(0.0, 0.0), (1.0, 1.0)])];
    let grid = SpatialGrid::build(&lines);
    let mut out = Vec::new();
    let mut seen = vec![0u8; 1];
    grid.lines_for_bounds(bounds(0.0, 1.0, 0.0, 1.0), &mut out, &mut seen);
    assert_eq!(out, vec![0], "line crossing cells must be deduped");
}

#[test]
fn spatial_grid_multiple_lines() {
    let lines = vec![
        make_line(&[(0.1, 0.1), (0.2, 0.2)]),
        make_line(&[(0.8, 0.8), (0.9, 0.9)]),
        make_line(&[(0.4, 0.4), (0.6, 0.6)]),
    ];
    let grid = SpatialGrid::build(&lines);
    let mut out = Vec::new();
    let mut seen = vec![0u8; 1];
    grid.lines_for_bounds(bounds(0.15, 0.7, 0.15, 0.7), &mut out, &mut seen);
    assert_eq!(out, vec![0, 2], "only lines 0 and 2 intersect the query");
}

#[test]
fn spatial_grid_reuse_clears_seen() {
    let lines = vec![make_line(&[(0.1, 0.1), (0.2, 0.2)])];
    let grid = SpatialGrid::build(&lines);
    let mut out = Vec::new();
    let mut seen = vec![0u8; 1];
    grid.lines_for_bounds(bounds(0.0, 0.5, 0.0, 0.5), &mut out, &mut seen);
    assert_eq!(out, vec![0], "first call finds line 0");
    grid.lines_for_bounds(bounds(0.6, 1.0, 0.6, 1.0), &mut out, &mut seen);
    assert!(out.is_empty(), "second call with disjoint bounds must return empty");
}

const MAX_LAT: f64 = 85.051_128_78;

#[test]
fn test_geopoint_new_clamps_lat_and_lon() {
    let g = GeoPoint::new(d(200.0), d(100.0));
    assert_eq!(f(g.lon), 180.0);
    assert_eq!(f(g.lat), MAX_LAT);
    let g2 = GeoPoint::new(d(-200.0), d(-100.0));
    assert_eq!(f(g2.lon), -180.0);
    assert_eq!(f(g2.lat), -MAX_LAT);
}

#[test]
fn test_bounds_contains_subset() {
    let outer = bounds(0.0, 1.0, 0.0, 1.0);
    let inner = bounds(0.1, 0.9, 0.1, 0.9);
    assert!(outer.contains(inner));
    assert!(!inner.contains(outer));
}

#[test]
fn test_bounds_contains_equal() {
    let b = bounds(0.2, 0.8, 0.2, 0.8);
    assert!(b.contains(b));
}

#[test]
fn test_tile_bounds_at_z1_covers_quadrant() {
    let b = tile_bounds(TileCoord { z: 1, x: 0, y: 0 });
    assert!((f(b.min_x) - 0.0).abs() < 1e-9);
    assert!((f(b.max_x) - 0.5).abs() < 1e-9);
    assert!((f(b.min_y) - 0.0).abs() < 1e-9);
    assert!((f(b.max_y) - 0.5).abs() < 1e-9);
}

#[test]
fn test_world_span_at_zoom_halves_per_zoom_step() {
    let s0 = f(world_span_at_zoom(0));
    let s1 = f(world_span_at_zoom(1));
    assert!((s0 / s1 - 2.0).abs() < 1e-9, "span halves per zoom step");
}

#[test]
fn tile_math_clamps_to_valid_range() {
    assert_eq!(tile_for_world(WorldPoint { x: d(1.0), y: d(1.0) }, 2).x, 3);
    assert_eq!(visible_tiles(bounds(0.0, 1.0, 0.0, 1.0), 1).len(), 4);
}

#[test]
fn tiles_spiral_center_first() {
    let area = bounds(0.0, 0.3, 0.0, 0.3);
    let center = WorldPoint { x: d(0.15), y: d(0.15) };
    let tiles = tiles_spiral_from(area, 3, center);
    assert!(!tiles.is_empty(), "should produce tile coords");
    assert_eq!(tiles[0].x, 1, "first tile must be centre x");
    assert_eq!(tiles[0].y, 1, "first tile must be centre y");
    let mut seen = std::collections::HashSet::new();
    for t in &tiles {
        assert!(seen.insert((t.x, t.y)), "duplicate tile ({}, {})", t.x, t.y);
    }
}

#[test]
fn tiles_spiral_single_tile() {
    let area = bounds(0.0, 0.05, 0.0, 0.05);
    let center = WorldPoint { x: d(0.025), y: d(0.025) };
    let tiles = tiles_spiral_from(area, 3, center);
    assert_eq!(tiles.len(), 1, "single tile at zoom 3 for tiny bounds");
}

#[test]
fn bounds_intersects_detects_overlap_and_disjoint() {
    let a = bounds(0.0, 0.5, 0.0, 0.5);
    let b = bounds(0.4, 0.9, 0.4, 0.9);
    let c = bounds(0.6, 1.0, 0.6, 1.0);
    assert!(a.intersects(b), "touching edges should overlap");
    assert!(!a.intersects(c), "diagonal gap should be disjoint");
    assert!(!a.intersects(bounds(0.6, 1.0, 0.0, 0.4)), "x-gap disjoint");
}

#[test]
fn resolutions_follow_the_zoom() {
    assert_eq!(BorderResolution::for_zoom(d(3.0)), BorderResolution::Low110m);
    assert_eq!(BorderResolution::for_zoom(d(3.5)), BorderResolution::Medium50m);
    assert_eq!(BorderResolution::for_zoom(d(4.5)), BorderResolution::High10m);
    assert_eq!(BorderResolution::for_zoom(d(7.0)), BorderResolution::Regional10m);
    assert_eq!(
        resolution_distance(BorderResolution::Low110m, BorderResolution::Regional10m),
        50
    );
}

fn layer(resolution: BorderResolution) -> Arc<BorderLayer> {
    Arc::new(BorderLayer { resolution, lines: Vec::new(), grid: None })
}

#[test]
fn few_border_layers_stay_loaded() {
    let mut cache = BorderCache::new();
    for r in [
        BorderResolution::Low110m,
        BorderResolution::Medium50m,
        BorderResolution::High10m,
        BorderResolution::Regional10m,
    ] {
        cache.insert_border_layer(layer(r), BorderResolution::Regional10m);
        assert!(cache.loaded.len() <= BORDER_LAYERS_MAX);
    }
    assert!(cache.loaded.iter().any(|l| l.resolution == BorderResolution::Regional10m));
}

#[test]
fn borders_are_fetched_once_and_shown_when_they_come() {
    let mut cache = BorderCache::new();
    let mut layers = LayerRegistry::new();
    let plan = cache.request_border_refresh(&mut layers, BorderResolution::Low110m, 1);
    let (id, r) = plan.fetch.expect("nothing is loaded yet");
    assert_eq!(r, BorderResolution::Low110m);
    let changed = cache.drain_border_result(
        &mut layers,
        BorderRefreshResult { id, result: BorderRefreshPayload::Ready(layer(r)) },
        BorderResolution::Low110m,
        2,
    );
    assert!(changed);
    assert_eq!(cache.borders.as_ref().unwrap().resolution, BorderResolution::Low110m);
    let again = cache.request_border_refresh(&mut layers, BorderResolution::Low110m, 3);
    assert!(again.fetch.is_none());
    assert!(layers.enabled(LayerId::MapBorders));
}

#[test]
fn numbers_keep_their_bits() {
    for x in [0.0, -0.0, 1.5, 1e-310, f64::MAX, -3.25, f64::INFINITY] {
        for y in [0.0, 1.5, 2.5, -3.25, f64::MIN] {
            assert_eq!(d(x).lt(d(y)), x < y);
            assert_eq!(d(x).le(d(y)), x <= y);
        }
    }
    assert!(!d(f64::NAN).le(d(1.0)));
    for x in [0.0f32, -1.5, 3.4e38, 1e-45, 0.1] {
        assert_eq!(f(widen(x.to_bits())), x as f64);
    }
    assert!(f(widen(f32::NAN.to_bits())).is_nan());
    assert_eq!(parse_double("46.05"), Some(d(46.05)));
    assert_eq!(parse_double("north"), None);
    assert!(f(parse_double("NaN").unwrap()).is_nan());
    assert_eq!(whole(-32), d(-32.0));
    assert_eq!(whole(0), d(0.0));
    assert_eq!(whole(4_294_967_295), d(4_294_967_295.0));
}

fn centre_range() -> CentreRange {
    CentreRange { min_x: d(0.1125), max_x: d(0.8875), min_y: d(0.1125), max_y: d(0.8875) }
}

#[test]
fn test_viewport_pan_stays_in_bounds() {
    let mut vp = Viewport::new(WorldPoint { x: d(0.54), y: d(0.36) }, d(4.0));
    for _ in 0..100 {
        let x = f(vp.center.x) + 10.0 * 0.25 / 16.0;
        vp.move_to(WorldPoint { x: d(x), y: vp.center.y }, centre_range());
    }
    assert!(f(vp.center.x) <= 1.0);
    assert!(f(vp.center.x) >= 0.0);
    assert_eq!(f(vp.center.x), 0.8875);
    assert_eq!(f(vp.center.y), 0.36);
}

#[test]
fn test_viewport_zoom_by_clamps_to_limits() {
    let mut vp = Viewport::new(WorldPoint { x: d(0.5), y: d(0.5) }, d(4.0));
    vp.zoom_to(d(f(vp.zoom) + 100.0));
    assert_eq!(f(vp.zoom), 12.0);
    vp.zoom_to(d(f(vp.zoom) - 200.0));
    assert_eq!(f(vp.zoom), 1.0);
}
