use front::backdrop::{
    backdrop_from_disk, backdrop_to_disk, cell_tier, order_cells, region_cells,
    should_fetch_backdrop, should_fetch_viewport, AgedCell, BackdropCacheEntry, CellCache,
    CellRank, CityTier, GridCell, BACKDROP_HISTORY_SECS,
};
use front::budget::{budget_limit, cooldown_secs, RateLimit, RequestBudget, BUDGET_WINDOW};
use front::cities::{city_cells, european_capital_names, european_capitals, european_major_cities};
use front::config::{EumetnetConfig, ANON_HOURLY_QUOTA, AUTH_HOURLY_QUOTA};
use front::double::Double;
use front::eumetnet::{EumetnetProvider, ViewportStep};
use front::features::ObservationPoint;
use front::geo::{Bounds, GeoPoint, WorldPoint};
use front::stations::{
    admit_point, admit_points, area_response, area_url, bounds_polygon, extract_param_values,
    last_hour, locations_url, normalize_station_name, parse_area_values, parse_locations,
    station_to_point, AreaFetch, AreaStation, BoxTexts, Params, SeenIds, StationInfo,
};
use front::viewport_obs::{
    bounds_covered, known_stations, station_list_end, station_list_start, StationListEntry,
    DiskCacheEntry, StationListStep, ViewportCache,
};
use serde_json::Value;

fn d(x: f64) -> Double {
    Double::from_bits(x.to_bits())
}

fn f(x: Double) -> f64 {
    f64::from_bits(x.bits)
}

fn value(text: &str) -> Value {
    serde_json::from_str(text).unwrap()
}

const CUTOFF: f64 = 5.0;

const SECOND: u64 = 1_000_000_000;

fn world(lat: f64, lon: f64) -> WorldPoint {
    let s = lat.to_radians().sin();
    WorldPoint {
        x: d((lon + 180.0) / 360.0),
        y: d(0.5 - ((1.0 + s) / (1.0 - s)).ln() / (4.0 * std::f64::consts::PI)),
    }
}

fn bounds(min_x: f64, max_x: f64, min_y: f64, max_y: f64) -> Bounds {
    Bounds { min_x: d(min_x), max_x: d(max_x), min_y: d(min_y), max_y: d(max_y) }
}

#[test]
fn backdrop_fetches_below_the_cutoff() {
    assert!(should_fetch_backdrop(d(CUTOFF - 0.1), d(CUTOFF)));
    assert!(!should_fetch_viewport(d(CUTOFF - 0.1), d(CUTOFF)));
}

#[test]
fn backdrop_does_not_fetch_at_or_above_the_cutoff() {
    assert!(!should_fetch_backdrop(d(CUTOFF), d(CUTOFF)));
    assert!(!should_fetch_backdrop(d(CUTOFF + 1.0), d(CUTOFF)));
    assert!(should_fetch_viewport(d(CUTOFF), d(CUTOFF)));
}

fn obs_point(wigos_id: &str) -> ObservationPoint {
    ObservationPoint {
        point: GeoPoint::new(d(14.5), d(46.0)),
        world: world(46.0, 14.5),
        station_id: wigos_id.to_string(),
        wigos_id: wigos_id.to_string(),
        temperature: Some(d(21.0)),
        wind_speed: None,
        wind_direction: None,
        humidity: None,
        pressure: None,
    }
}

#[test]
fn backdrop_round_trip_preserves_key_points_and_age() {
    let now = 100_000u64;
    let cells = vec![AgedCell {
        lat_bits: 1,
        lon_bits: 2,
        age: 3600 * SECOND,
        points: vec![obs_point("0-1")],
    }];
    let disk = backdrop_to_disk(cells, now, BACKDROP_HISTORY_SECS);
    assert_eq!(disk.len(), 1);
    assert_eq!(disk[0].fetched_unix, now - 3600);

    let back = backdrop_from_disk(disk, now, BACKDROP_HISTORY_SECS);
    assert_eq!(back.len(), 1);
    assert_eq!((back[0].lat_bits, back[0].lon_bits), (1, 2));
    assert_eq!(back[0].age_secs, 3600);
    assert_eq!(back[0].points.len(), 1);
    assert_eq!(back[0].points[0].wigos_id, "0-1");
}

#[test]
fn backdrop_to_disk_drops_cells_older_than_the_retention_window() {
    let cells = vec![
        AgedCell {
            lat_bits: 1,
            lon_bits: 1,
            age: (BACKDROP_HISTORY_SECS + 1) * SECOND,
            points: vec![],
        },
        AgedCell { lat_bits: 2, lon_bits: 2, age: 3600 * SECOND, points: vec![] },
    ];
    let disk = backdrop_to_disk(cells, 100_000, BACKDROP_HISTORY_SECS);
    assert_eq!(disk.len(), 1);
    assert_eq!((disk[0].lat_bits, disk[0].lon_bits), (2, 2));
}

#[test]
fn backdrop_from_disk_drops_entries_older_than_the_retention_window() {
    let now = 200_000u64;
    let entries = vec![
        BackdropCacheEntry {
            lat_bits: 1,
            lon_bits: 1,
            fetched_unix: now - (BACKDROP_HISTORY_SECS + 1),
            points: vec![],
        },
        BackdropCacheEntry { lat_bits: 2, lon_bits: 2, fetched_unix: now - 3600, points: vec![] },
    ];
    let back = backdrop_from_disk(entries, now, BACKDROP_HISTORY_SECS);
    assert_eq!(back.len(), 1);
    assert_eq!((back[0].lat_bits, back[0].lon_bits), (2, 2));
}

#[test]
fn backdrop_from_disk_clamps_future_timestamps_to_zero_age() {
    let entries = vec![BackdropCacheEntry {
        lat_bits: 1,
        lon_bits: 1,
        fetched_unix: 5_000,
        points: vec![],
    }];
    let back = backdrop_from_disk(entries, 1_000, BACKDROP_HISTORY_SECS);
    assert_eq!(back.len(), 1);
    assert_eq!(back[0].age_secs, 0);
}

#[test]
fn empty_wigos_ids_from_a_pre_upgrade_cache_all_survive_dedup() {
    let old_layer = value(
        r#"{"points":[
          {"point":{"lat":46.0,"lon":14.5},"world":{"x":0.5,"y":0.3},
           "station_id":"Ljubljana","temperature":21.0,"wind_speed":null,
           "wind_direction":null,"humidity":null,"pressure":null},
          {"point":{"lat":48.2,"lon":16.4},"world":{"x":0.5,"y":0.3},
           "station_id":"Vienna","temperature":19.0,"wind_speed":null,
           "wind_direction":null,"humidity":null,"pressure":null},
          {"point":{"lat":45.8,"lon":15.9},"world":{"x":0.5,"y":0.3},
           "station_id":"Zagreb","temperature":23.0,"wind_speed":null,
           "wind_direction":null,"humidity":null,"pressure":null}
        ]}"#,
    );
    let points = old_layer["points"].as_array().unwrap();
    assert_eq!(points.len(), 3);
    let ids: Vec<&str> = points.iter().map(|p| p["wigos_id"].as_str().unwrap_or("")).collect();
    assert!(ids.iter().all(|id| id.is_empty()));
    let mut seen = SeenIds::new();
    let kept = ids.iter().filter(|id| admit_point(&mut seen, id)).count();
    assert_eq!(kept, 3, "identity-less points must not collapse onto each other");
}

#[test]
fn real_wigos_ids_still_dedup() {
    let mut seen = SeenIds::new();
    assert!(admit_point(&mut seen, "0-20000-0-11035"));
    assert!(!admit_point(&mut seen, "0-20000-0-11035"));
    assert!(admit_point(&mut seen, "0-20000-0-06260"));
}

#[test]
fn wigos_dedup_key_is_stable_across_cold_and_warm_name_cache() {
    let station = || AreaStation {
        wigos_id: "0-20000-0-06260".to_string(),
        lon: d(5.18),
        lat: d(52.1),
        values: Params::new(),
    };
    let cold_names: Vec<StationInfo> = vec![];
    let warm_names = vec![StationInfo {
        wigos_id: "0-20000-0-06260".to_string(),
        name: "De Bilt".to_string(),
        lon: d(5.18),
        lat: d(52.1),
    }];
    let phase1 = station_to_point(station(), &cold_names, world(52.1, 5.18));
    let phase2 = station_to_point(station(), &warm_names, world(52.1, 5.18));
    assert_ne!(phase1.station_id, phase2.station_id);
    let mut seen = SeenIds::new();
    let mut surviving = 0;
    for pt in [phase1, phase2] {
        if admit_point(&mut seen, &pt.wigos_id) {
            surviving += 1;
        }
    }
    assert_eq!(
        surviving, 1,
        "same station across a cold/warm name cache must dedup to one entry"
    );
}

fn all_cities() -> Vec<(i32, i32)> {
    let mut cities = european_capitals();
    cities.extend(european_major_cities());
    cities
}

#[test]
fn clustering_brings_a_full_refresh_within_the_anonymous_budget() {
    let cities = all_cities();
    let cells = region_cells(&city_cells(&cities));
    assert!(
        cells.len() < cities.len() / 4,
        "expected a big reduction, got {} cells from {} cities",
        cells.len(),
        cities.len()
    );
    let budget = (f64::from(ANON_HOURLY_QUOTA) * 0.8) as usize;
    assert!(
        cells.len() < budget,
        "{} cells must fit the {budget}/h anonymous budget",
        cells.len()
    );
}

#[test]
fn region_cells_deduplicates_nearby_points() {
    let pts = vec![(4605, 1451), (4650, 1500), (4580, 1400)];
    assert_eq!(region_cells(&city_cells(&pts)).len(), 1);
}

#[test]
fn region_cells_keeps_distant_points_apart() {
    let pts = vec![(3872, -914), (6017, 2494)];
    assert_eq!(region_cells(&city_cells(&pts)).len(), 2);
}

#[test]
fn every_city_is_covered_by_its_cell_bbox() {
    let cities = all_cities();
    let cells = region_cells(&city_cells(&cities));
    let half = 12.0 / 2.0;
    for &(lat, lon) in &cities {
        let (lat, lon) = (lat as f64 / 100.0, lon as f64 / 100.0);
        assert!(
            cells.iter().any(|&(row, col)| {
                let (cla, clo) = (row as f64 * 12.0, col as f64 * 12.0);
                (lat - cla).abs() <= half + 1e-9 && (lon - clo).abs() <= half + 1e-9
            }),
            "city {lat},{lon} is not covered by any cell"
        );
    }
}

#[test]
fn cells_round_as_floating_point_does() {
    for &(lat, lon) in &all_cities() {
        let cell = city_cells(&vec![(lat, lon)])[0];
        let want = (
            (lat as f64 / 100.0 / 12.0).round() as i64,
            (lon as f64 / 100.0 / 12.0).round() as i64,
        );
        assert_eq!(cell, want);
    }
    assert_eq!(european_capital_names().len(), european_capitals().len());
    assert_eq!(european_capital_names()[26], "Ljubljana");
    assert_eq!(european_capitals()[26], (4605, 1451));
}

fn rank(
    cell: GridCell,
    capitals: &[GridCell],
    majors: &[GridCell],
    viewport: Bounds,
) -> CellRank {
    let (lat, lon) = (cell.0 as f64 * 12.0, cell.1 as f64 * 12.0);
    let a = world(lat - 6.0, lon - 6.0);
    let b = world(lat + 6.0, lon + 6.0);
    let c = world(lat, lon);
    let centre = world(0.0, 0.0);
    let distance = (f(c.x) - f(centre.x)).powi(2) + (f(c.y) - f(centre.y)).powi(2);
    let cell_box = bounds(f(a.x), f(b.x), f(b.y), f(a.y));
    CellRank {
        overlap: viewport.intersects(cell_box),
        tier: cell_tier(cell, capitals, majors),
        distance: d(distance),
    }
}

fn ordered(
    cells: &[GridCell],
    capitals: &[GridCell],
    majors: &[GridCell],
    viewport: Bounds,
) -> Vec<GridCell> {
    let ranks: Vec<CellRank> =
        cells.iter().map(|&c| rank(c, capitals, majors, viewport)).collect();
    order_cells(&ranks).into_iter().map(|i| cells[i]).collect()
}

#[test]
fn order_cells_prefers_viewport_overlap_at_equal_tier_and_distance() {
    let overlapping = (0, 1);
    let non_overlapping = (0, -1);
    let viewport = bounds(0.52, 0.6, 0.0, 1.0);
    assert_eq!(
        ordered(&[non_overlapping, overlapping], &[], &[], viewport),
        vec![overlapping, non_overlapping]
    );
}

#[test]
fn order_cells_prefers_capital_tier_at_equal_overlap_and_distance() {
    let capital_cell = (0, 1);
    let major_cell = (0, -1);
    let whole_world = bounds(0.0, 1.0, 0.0, 1.0);
    assert_eq!(
        ordered(&[major_cell, capital_cell], &[(0, 1)], &[(0, -1)], whole_world),
        vec![capital_cell, major_cell]
    );
    assert_eq!(cell_tier((5, 5), &[(0, 1)], &[(0, -1)]), CityTier::Untiered);
}

#[test]
fn order_cells_prefers_nearer_cell_at_equal_overlap_and_tier() {
    let near = (0, 1);
    let far = (0, 2);
    let whole_world = bounds(0.0, 1.0, 0.0, 1.0);
    assert_eq!(ordered(&[far, near], &[], &[], whole_world), vec![near, far]);
}

#[test]
fn budget_allows_exactly_the_limit_then_refuses() {
    let mut b = RequestBudget::new();
    for i in 0..5 {
        assert!(b.try_spend(5, BUDGET_WINDOW, i));
    }
    assert!(!b.try_spend(5, BUDGET_WINDOW, 5));
    assert_eq!(b.remaining(5, BUDGET_WINDOW, 5), 0);
}

#[test]
fn refused_requests_do_not_consume_budget() {
    let mut b = RequestBudget::new();
    assert!(b.try_spend(1, BUDGET_WINDOW, 0));
    for i in 0..10 {
        assert!(!b.try_spend(1, BUDGET_WINDOW, i));
    }
    assert_eq!(b.spent.len(), 1);
}

#[test]
fn budget_recovers_once_spends_age_out_of_the_window() {
    let mut b = RequestBudget::new();
    let window = 40_000_000;
    assert!(b.try_spend(1, window, 0));
    assert!(!b.try_spend(1, window, 0));
    let later = 60_000_000;
    assert_eq!(b.remaining(1, window, later), 1);
    assert!(b.try_spend(1, window, later));
}

#[test]
fn budget_limit_tracks_whether_an_api_key_is_configured() {
    let anon = EumetnetConfig::default();
    assert_eq!(anon.hourly_quota(), ANON_HOURLY_QUOTA);
    let keyed = EumetnetConfig { api_key: "abc123".to_string(), ..EumetnetConfig::default() };
    assert_eq!(keyed.hourly_quota(), AUTH_HOURLY_QUOTA);
    assert!(keyed.hourly_quota() > anon.hourly_quota());
    assert_eq!(budget_limit(&anon), 40);
}

#[test]
fn blank_api_key_is_treated_as_anonymous() {
    let cfg = EumetnetConfig { api_key: "   ".to_string(), ..EumetnetConfig::default() };
    assert_eq!(cfg.hourly_quota(), ANON_HOURLY_QUOTA);
}

fn station(id: &str) -> StationInfo {
    StationInfo {
        wigos_id: id.to_string(),
        name: "Test Station".to_string(),
        lon: d(14.5),
        lat: d(46.0),
    }
}

#[test]
fn fetch_station_list_reserves_budget_before_the_network_request() {
    let limit = budget_limit(&EumetnetConfig::default());
    let mut budget = RequestBudget::new();
    let before = budget.remaining(limit, BUDGET_WINDOW, 0);
    assert!(before > 0, "test needs budget available to spend");
    let stale = StationListEntry { bounds: None, stations: vec![station("0-20000-0-99999")] };
    let step = station_list_start(Some(stale), 25 * 3600, &mut budget, limit, 0);
    let fallback = match step {
        StationListStep::Ask(s) => s,
        StationListStep::Have(_) => panic!("a stale list has to be asked for"),
    };
    let (result, save) = station_list_end(None, fallback);
    assert!(!save);
    assert_eq!(result.len(), 1);
    assert_eq!(result[0].wigos_id, "0-20000-0-99999");
    assert_eq!(budget.remaining(limit, BUDGET_WINDOW, 0), before - 1);
}

#[test]
fn a_fresh_station_list_costs_nothing() {
    let mut budget = RequestBudget::new();
    let fresh = StationListEntry { bounds: None, stations: vec![station("a")] };
    match station_list_start(Some(fresh), 60, &mut budget, 5, 0) {
        StationListStep::Have(s) => assert_eq!(s.len(), 1),
        StationListStep::Ask(_) => panic!("a fresh list is used as it is"),
    }
    assert_eq!(budget.remaining(5, BUDGET_WINDOW, 0), 5);
    let fresh = StationListEntry { bounds: None, stations: vec![station("a")] };
    assert_eq!(known_stations(Some(fresh), 60).len(), 1);
    assert!(known_stations(None, 0).is_empty());
}

#[test]
fn test_normalize_station_name_all_caps_to_title_case() {
    assert_eq!(normalize_station_name("BAD_TATZMANNSDORF"), "Bad Tatzmannsdorf");
}

#[test]
fn test_normalize_station_name_mixed_case_unchanged() {
    assert_eq!(normalize_station_name("Szombathely"), "Szombathely");
}

#[test]
fn test_normalize_station_name_underscores_replaced_when_mixed_case() {
    assert_eq!(normalize_station_name("Wien_Hohe_Warte"), "Wien Hohe Warte");
}

#[test]
fn test_normalize_station_name_single_word_all_caps() {
    assert_eq!(normalize_station_name("BERLIN"), "Berlin");
}

#[test]
fn test_normalize_station_name_empty() {
    assert_eq!(normalize_station_name(""), "");
}

#[test]
fn test_bounds_covered_none_have_always_true() {
    let want = Some(bounds(0.1, 0.9, 0.1, 0.9));
    assert!(bounds_covered(None, want));
    assert!(bounds_covered(None, None));
}

#[test]
fn test_bounds_covered_have_subset_of_want_is_false() {
    let have = Some(bounds(0.2, 0.8, 0.2, 0.8));
    let want = Some(bounds(0.1, 0.9, 0.1, 0.9));
    assert!(!bounds_covered(have, want));
}

#[test]
fn test_bounds_covered_have_superset_of_want_is_true() {
    let have = Some(bounds(0.0, 1.0, 0.0, 1.0));
    let want = Some(bounds(0.2, 0.8, 0.2, 0.8));
    assert!(bounds_covered(have, want));
}

#[test]
fn test_bounds_covered_have_some_want_none_is_false() {
    let have = Some(bounds(0.0, 1.0, 0.0, 1.0));
    assert!(!bounds_covered(have, None));
}

#[test]
fn test_bounds_polygon_none_returns_europe_fallback() {
    let poly = bounds_polygon(None);
    assert!(poly.starts_with("POLYGON"), "must be a WKT polygon");
    assert!(poly.contains("-30"), "Europe fallback spans to -30°");
}

#[test]
fn test_bounds_polygon_some_bounds_contains_lon_lat() {
    let poly = bounds_polygon(Some(BoxTexts {
        west: "-36".to_string(),
        south: "-33.5".to_string(),
        east: "36".to_string(),
        north: "33.5".to_string(),
    }));
    assert!(poly.starts_with("POLYGON"), "must be a WKT polygon");
    let inner = poly.trim_start_matches("POLYGON((").trim_end_matches("))");
    let points: Vec<&str> = inner.split(',').collect();
    assert_eq!(
        points.first().unwrap().trim(),
        points.last().unwrap().trim(),
        "polygon must be closed"
    );
    assert_eq!(points.len(), 5);
    assert!(poly.contains("36 33.5"));
}

#[test]
fn test_extract_param_values_picks_latest_value() {
    let ranges = value(r#"{ "air_temperature": { "values": [10.0, 12.0, 15.0] } }"#);
    let out = extract_param_values(&ranges).unwrap();
    assert!((f(out.get("air_temperature").unwrap()) - 15.0).abs() < 1e-9);
}

#[test]
fn test_extract_param_values_wind_speed_prefers_mean() {
    let ranges = value(
        r#"{
            "wind_speed:max:PT10M": { "values": [5.0] },
            "wind_speed:mean:PT10M": { "values": [3.0] }
        }"#,
    );
    let out = extract_param_values(&ranges).unwrap();
    assert!((f(out.get("wind_speed").unwrap()) - 3.0).abs() < 1e-9, "mean should win");
}

#[test]
fn test_extract_param_values_skips_null_values() {
    let ranges = value(r#"{ "air_temperature": { "values": [null] } }"#);
    let out = extract_param_values(&ranges).unwrap();
    assert!(out.get("air_temperature").is_none(), "null value must be skipped");
}

const COVERAGE: &str = r#"{
            "coverages": [{
                "metocean:wigosId": "0-20000-0-11035",
                "domain": {
                    "axes": {
                        "x": { "values": [14.51] },
                        "y": { "values": [46.05] }
                    }
                },
                "ranges": {
                    "air_temperature": { "values": [22.5] }
                }
            }]
        }"#;

#[test]
fn test_parse_area_values_basic_coverage() {
    let result = parse_area_values(&value(COVERAGE));
    assert_eq!(result.len(), 1);
    assert_eq!(result[0].wigos_id, "0-20000-0-11035");
    assert!((f(result[0].lon) - 14.51).abs() < 1e-9);
    assert!((f(result[0].lat) - 46.05).abs() < 1e-9);
    assert!((f(result[0].values.get("air_temperature").unwrap()) - 22.5).abs() < 1e-9);
}

#[test]
fn test_parse_area_values_skips_coverage_without_id() {
    let data = value(
        r#"{
            "coverages": [{
                "domain": { "axes": { "x": { "values": [0.0] }, "y": { "values": [0.0] } } },
                "ranges": { "air_temperature": { "values": [10.0] } }
            }]
        }"#,
    );
    assert!(parse_area_values(&data).is_empty());
}

#[test]
fn test_parse_area_values_skips_empty_values() {
    let data = value(
        r#"{
            "coverages": [{
                "metocean:wigosId": "test",
                "domain": { "axes": { "x": { "values": [1.0] }, "y": { "values": [2.0] } } },
                "ranges": { "air_temperature": { "values": [] } }
            }]
        }"#,
    );
    assert!(parse_area_values(&data).is_empty());
}

#[test]
fn test_parse_area_values_no_coverages_key() {
    let data = value(r#"{ "type": "CoverageCollection" }"#);
    assert!(parse_area_values(&data).is_empty());
}

#[test]
fn test_parse_locations_empty_text_returns_empty_vec() {
    assert!(parse_locations("").is_some_and(|v| v.is_empty()));
}

#[test]
fn test_parse_locations_basic_feature() {
    let json = r#"{
          "features": [{
            "id": "0-20000-0-11035",
            "geometry": { "type": "Point", "coordinates": [14.51, 46.05] },
            "properties": { "name": "Ljubljana" }
          }]
        }"#;
    let result = parse_locations(json).unwrap();
    assert_eq!(result.len(), 1);
    assert_eq!(result[0].wigos_id, "0-20000-0-11035");
    assert_eq!(result[0].name, "Ljubljana");
    assert!((f(result[0].lon) - 14.51).abs() < 1e-9);
    assert!((f(result[0].lat) - 46.05).abs() < 1e-9);
}

#[test]
fn test_parse_locations_falls_back_to_platform_id() {
    let json = r#"{
          "features": [{
            "geometry": { "type": "Point", "coordinates": [0.0, 0.0] },
            "properties": { "platform": "fallback-id", "name": "Test" }
          }]
        }"#;
    let result = parse_locations(json).unwrap();
    assert_eq!(result.len(), 1);
    assert_eq!(result[0].wigos_id, "fallback-id");
}

#[test]
fn test_parse_locations_skips_non_point_geometry() {
    let json = r#"{
          "features": [{
            "id": "poly-station",
            "geometry": { "type": "Polygon", "coordinates": [] },
            "properties": {}
          }]
        }"#;
    let result = parse_locations(json).unwrap();
    assert!(result.is_empty(), "non-Point geometry must be skipped");
}

#[test]
fn test_parse_locations_skips_feature_without_id() {
    let json = r#"{
          "features": [{
            "geometry": { "type": "Point", "coordinates": [0.0, 0.0] },
            "properties": {}
          }]
        }"#;
    let result = parse_locations(json).unwrap();
    assert!(result.is_empty(), "feature without id must be skipped");
}

#[test]
fn test_parse_locations_name_title_platform_name_fallback_chain() {
    let json = r#"{
          "features": [{
            "id": "S1",
            "geometry": { "type": "Point", "coordinates": [1.0, 2.0] },
            "properties": { "title": "My Title" }
          }]
        }"#;
    let result = parse_locations(json).unwrap();
    assert_eq!(result[0].name, "My Title");
}

#[test]
fn answers_are_classified_by_their_status() {
    assert!(matches!(area_response(429, Some(7), ""), AreaFetch::RateLimited(Some(7))));
    assert!(matches!(area_response(500, None, ""), AreaFetch::Empty));
    assert!(matches!(area_response(200, None, "no json"), AreaFetch::Empty));
    match area_response(200, None, COVERAGE) {
        AreaFetch::Stations(s) => assert_eq!(s.len(), 1),
        other => panic!("expected stations, got {other:?}"),
    }
}

#[test]
fn refusals_are_waited_out() {
    assert_eq!(cooldown_secs(None), 60);
    assert_eq!(cooldown_secs(Some(10)), 10);
    assert_eq!(cooldown_secs(Some(100_000)), 1200);
    let mut limit = RateLimit::new();
    assert!(!limit.is_blocked(0));
    limit.refused(Some(10), 5 * SECOND);
    assert!(limit.is_blocked(14 * SECOND));
    assert!(!limit.is_blocked(15 * SECOND));
}

#[test]
fn a_batch_serves_what_is_fresh_and_asks_for_the_rest() {
    let mut cache = CellCache::new();
    cache.insert((1, 1), vec![obs_point("a")], 0);
    let mut seen = SeenIds::new();
    let plan = cache.plan_batch(&[(1, 1), (2, 2), (3, 3)], &mut seen, false, 3, SECOND);
    assert_eq!(plan.emit.len(), 1);
    assert_eq!(plan.fetch, vec![(2, 2)]);
    let mut seen = SeenIds::new();
    let blocked = cache.plan_batch(&[(1, 1), (2, 2)], &mut seen, true, 3, 7 * 3600 * SECOND);
    assert_eq!(blocked.emit.len(), 1);
    assert!(blocked.fetch.is_empty());
    let mut seen = SeenIds::new();
    let worlds = vec![world(46.05, 14.51)];
    let step = cache.take_area(
        (2, 2),
        area_response(200, None, COVERAGE),
        &vec![],
        &worlds,
        &mut seen,
        SECOND,
    );
    assert_eq!(step.emit.len(), 1);
    assert!(step.flush && !step.stop);
    let refused = cache.take_area(
        (3, 3),
        AreaFetch::RateLimited(Some(9)),
        &vec![],
        &vec![],
        &mut seen,
        SECOND,
    );
    assert!(refused.stop);
    assert_eq!(refused.refused, Some(Some(9)));
    assert_eq!(cache.aged_cells(2 * SECOND).len(), 2);
}

#[test]
fn points_are_admitted_once() {
    let mut seen = SeenIds::new();
    let points = vec![obs_point("a"), obs_point("a"), obs_point(""), obs_point("")];
    assert_eq!(admit_points(&points, &mut seen).len(), 3);
}

#[test]
fn addresses_and_times_are_written_as_the_gateway_takes_them() {
    assert_eq!(area_url("https://x", "obs"), "https://x/collections/obs/area");
    assert_eq!(locations_url("https://x", "obs"), "https://x/collections/obs/locations");
    assert_eq!(
        last_hour(1_700_000_000).as_deref(),
        Some("2023-11-14T21:13:20Z/2023-11-14T22:13:20Z")
    );
    assert_eq!(last_hour(i64::MAX), None);
}

#[test]
fn an_empty_view_cache_serves_nothing() {
    let cache = ViewportCache::new();
    assert!(cache.from_memory(None, 0).is_none());
}

fn provider(api_key: &str) -> EumetnetProvider {
    EumetnetProvider::new(EumetnetConfig {
        surface_endpoint: String::new(),
        api_key: api_key.to_string(),
    })
}

#[test]
fn a_provider_spends_four_fifths_of_its_quota() {
    let mut p = provider("");
    assert_eq!(p.budget_remaining(0), 40);
    let spent = (0..60).filter(|_| p.try_spend(SECOND)).count();
    assert_eq!(spent, 40);
    assert_eq!(p.budget_remaining(2 * SECOND), 0);
    assert_eq!(p.budget_remaining(3601 * SECOND), 40);
    assert_eq!(p.api_key(), None);
    let mut keyed = provider("  key ");
    assert_eq!(keyed.budget_remaining(0), 400);
    assert_eq!(keyed.api_key().as_deref(), Some("key"));
}

#[test]
fn a_restart_keeps_the_cells() {
    let mut first = provider("");
    let (now, unix) = (100_000 * SECOND, 1_700_000_000);
    let mut seen = SeenIds::new();
    let plan = first.start_batch(&[(1, 1), (2, 2)], &mut seen, now);
    assert_eq!(plan.fetch, vec![(1, 1), (2, 2)]);
    let worlds = vec![world(46.05, 14.51)];
    let fetch = area_response(200, None, COVERAGE);
    let step = first.take_cell((1, 1), fetch, &vec![], &worlds, &mut seen, now, now);
    assert!(step.flush && !step.stop);
    let saved = first.save_backdrop(now + 60 * SECOND, unix);
    assert_eq!(saved.len(), 1);
    assert_eq!((saved[0].lat_bits, saved[0].lon_bits, saved[0].fetched_unix), (1, 1, unix - 60));
    let mut second = provider("");
    second.load_backdrop(Some(saved), unix + 40, now);
    let mut seen = SeenIds::new();
    let plan = second.start_batch(&[(1, 1), (2, 2)], &mut seen, now);
    assert_eq!(plan.emit.len(), 1);
    assert_eq!(plan.fetch, vec![(2, 2)]);
    second.load_backdrop(Some(vec![]), unix, now);
    assert_eq!(second.save_backdrop(now, unix).len(), 1);
}

#[test]
fn a_refused_provider_waits() {
    let mut p = provider("");
    let mut seen = SeenIds::new();
    let refused = AreaFetch::RateLimited(Some(9));
    let step = p.take_cell((1, 1), refused, &vec![], &vec![], &mut seen, 0, SECOND);
    assert!(step.stop);
    assert!(p.start_batch(&[(1, 1)], &mut seen, 9 * SECOND).fetch.is_empty());
    assert!(matches!(p.viewport_on_disk(None, None, 9 * SECOND), ViewportStep::Skip));
    assert_eq!(p.start_batch(&[(1, 1)], &mut seen, 10 * SECOND).fetch, vec![(1, 1)]);
    assert!(matches!(p.viewport_on_disk(None, None, 10 * SECOND), ViewportStep::Ask));
    assert_eq!(p.budget_remaining(10 * SECOND), 39);
}

#[test]
fn readings_in_view_are_asked_for_once() {
    let mut p = provider("");
    let area = Some(bounds(0.4, 0.6, 0.3, 0.5));
    assert!(p.viewport_in_memory(area, 0).is_none());
    assert!(matches!(p.viewport_on_disk(None, area, 0), ViewportStep::Ask));
    let worlds = vec![world(46.05, 14.51)];
    let fetch = area_response(200, None, COVERAGE);
    let (points, save) = p.take_viewport(fetch, &vec![], &worlds, area, SECOND, 77);
    assert_eq!(points.len(), 1);
    let saved = save.expect("what came is saved");
    assert_eq!(saved.points.len(), 1);
    let inside = Some(bounds(0.45, 0.55, 0.35, 0.45));
    assert_eq!(p.viewport_in_memory(inside, 600 * SECOND).map(|v| v.len()), Some(1));
    assert!(p.viewport_in_memory(inside, 601 * SECOND).is_none());
    let mut later = provider("");
    let copy = DiskCacheEntry { bounds: saved.bounds, points: saved.points };
    assert!(matches!(
        later.viewport_on_disk(Some((copy, 599)), inside, SECOND),
        ViewportStep::Have(v) if v.len() == 1
    ));
    let (none, save) = p.take_viewport(AreaFetch::Empty, &vec![], &vec![], area, SECOND, 0);
    assert!(none.is_empty() && save.is_none());
}

#[test]
fn a_provider_plans_by_the_zoom_and_what_it_knows() {
    let p = provider("");
    let far = p.plan_observations(None, 0, d(CUTOFF - 0.1), d(CUTOFF));
    assert!(far.backdrop && !far.viewport && far.list && far.names.is_empty());
    let list = StationListEntry {
        bounds: None,
        stations: vec![StationInfo {
            wigos_id: "a".to_string(),
            name: "A".to_string(),
            lon: d(0.0),
            lat: d(0.0),
        }],
    };
    let near = p.plan_observations(Some(list), 100, d(CUTOFF), d(CUTOFF));
    assert!(!near.backdrop && near.viewport && !near.list);
    assert_eq!(near.names.len(), 1);
    let mut p = provider("");
    assert!(matches!(p.start_station_list(None, 0, 0), StationListStep::Ask(v) if v.is_empty()));
    assert_eq!(p.budget_remaining(0), 39);
}
