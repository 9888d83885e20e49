use front::borders::{BorderLine, BorderLineKind, BorderResolution};
use front::double::Double;
use front::geo::{Bounds, WorldPoint};
use front::maps::{
    add_source_lines, all_source_lines, country_urls, detail_urls, parse_country_lines, parse_lines,
    farthest_point, simplification_epsilon, tile_directory, unique_lines, MapError, Simplification,
};

fn d(x: f64) -> Double {
    Double::from_bits(x.to_bits())
}

fn point(x: f64, y: f64) -> WorldPoint {
    WorldPoint { x: d(x), y: d(y) }
}

fn xy(p: WorldPoint) -> (f64, f64) {
    (f64::from_bits(p.x.bits), f64::from_bits(p.y.bits))
}

/// The squared distance of a point from a segment's line.
fn distance_sq(p: WorldPoint, a: WorldPoint, b: WorldPoint) -> f64 {
    let ((px, py), (ax, ay), (bx, by)) = (xy(p), xy(a), xy(b));
    let (dx, dy) = (bx - ax, by - ay);
    let len = dx * dx + dy * dy;
    if len == 0.0 {
        return (px - ax).powi(2) + (py - ay).powi(2);
    }
    (dy * (px - ax) - dx * (py - ay)).powi(2) / len
}

fn simplify(points: Vec<WorldPoint>, eps: f64) -> Vec<WorldPoint> {
    simplify_points(points, eps, false)
}

fn simplify_points(points: Vec<WorldPoint>, eps: f64, cancel: bool) -> Vec<WorldPoint> {
    let mut s = Simplification::new(points.len(), cancel);
    while let Some((a, b)) = s.next_stretch() {
        let distances: Vec<Double> =
            (a + 1..b).map(|i| d(distance_sq(points[i], points[a], points[b]))).collect();
        s.settle(farthest_point(a, &distances, d(eps * eps)));
    }
    s.finish(&points)
}

#[test]
fn simplify_keeps_essential_points() {
    let points = vec![point(0.0, 0.0), point(0.1, 0.0), point(0.1, 0.1)];
    assert_eq!(simplify(points.clone(), 0.001).len(), 3, "corners should be kept");
    assert_eq!(simplify(points, 10.0).len(), 2, "endpoints only");
}

#[test]
fn parses_polygon_geojson() {
    let json = br#"{
          "type":"FeatureCollection",
          "features":[{"type":"Feature","geometry":{"type":"Polygon","coordinates":[[[0,0],[18,0],[18,18],[0,0]]]}}]
        }"#;
    let lines = parse_country_lines(json).unwrap();
    assert_eq!(lines.len(), 1);
    assert_eq!(lines[0].kind, BorderLineKind::Country);
    assert!(lines[0].points.len() >= 3);
}

#[test]
fn parses_line_string_geojson() {
    let json = br#"{
          "type":"FeatureCollection",
          "features":[{"type":"Feature","geometry":{"type":"LineString","coordinates":[[0,0],[1,1]]}}]
        }"#;
    let lines = parse_lines(BorderLineKind::Region, json).unwrap();
    assert_eq!(lines.len(), 1);
    assert_eq!(lines[0].kind, BorderLineKind::Region);
    assert_eq!(lines[0].points.len(), 2);
}

#[test]
fn parses_multi_line_string_geojson() {
    let json = br#"{
          "type":"FeatureCollection",
          "features":[{"type":"Feature","geometry":{"type":"MultiLineString","coordinates":[[[0,0],[1,0]],[[2,0],[3,0]]]}}]
        }"#;
    let lines = parse_lines(BorderLineKind::Road, json).unwrap();
    assert_eq!(lines.len(), 2);
    assert!(lines.iter().all(|l| l.kind == BorderLineKind::Road));
}

const TWO_POLYGONS: &[u8] = br#"{
          "type":"FeatureCollection",
          "features":[{"type":"Feature","geometry":{"type":"MultiPolygon","coordinates":[[[[0,0],[9,0],[9,9],[0,0]]],[[[10,0],[19,0],[19,9],[10,0]]]]}}]
        }"#;

#[test]
fn parses_multi_polygon_geojson() {
    let lines = parse_country_lines(TWO_POLYGONS).unwrap();
    assert_eq!(lines.len(), 2);
}

#[test]
fn simplification_epsilon_ordering() {
    let eps_low = simplification_epsilon(BorderResolution::Low110m).unwrap();
    let eps_reg = simplification_epsilon(BorderResolution::Regional10m).unwrap();
    assert!(eps_reg.lt(eps_low), "regional must have smaller epsilon than low");
    assert_eq!(eps_low, d(0.0007));
    assert_eq!(simplification_epsilon(BorderResolution::Medium50m), Some(d(0.00025)));
    assert_eq!(simplification_epsilon(BorderResolution::High10m), Some(d(0.0001)));
    assert_eq!(eps_reg, d(0.000008));
}

#[test]
fn simplify_collinear_removes_middle_point() {
    let pts = vec![point(0.0, 0.0), point(0.5, 0.0), point(1.0, 0.0)];
    assert_eq!(simplify(pts, 1e-9).len(), 2, "collinear middle must be removed");
}

#[test]
fn simplify_two_points_unchanged() {
    let pts = vec![point(0.0, 0.0), point(1.0, 1.0)];
    assert_eq!(simplify(pts, 0.001).len(), 2, "two-point line cannot be reduced");
}

#[test]
fn simplify_cancelled_returns_input_unchanged() {
    let pts = vec![point(0.0, 0.0), point(0.5, 0.5), point(1.0, 0.0)];
    let result = simplify_points(pts.clone(), 1e-9, true);
    assert_eq!(result.len(), pts.len(), "cancelled simplify returns full input");
}

#[test]
fn each_bad_map_has_its_error() {
    assert!(matches!(parse_lines(BorderLineKind::Road, b"x"), Err(MapError::Malformed)));
    assert!(matches!(parse_lines(BorderLineKind::Road, b"{}"), Err(MapError::NoFeatures)));
    assert!(matches!(
        parse_country_lines(br#"{"features":[]}"#),
        Err(MapError::NoBorders)
    ));
}

#[test]
fn all_files_of_a_resolution_are_joined() {
    let road = br#"{"features":[{"geometry":{"type":"LineString","coordinates":[[0,0],[1,1]]}}]}"#;
    let all = all_source_lines(TWO_POLYGONS, &None, &Some(road.to_vec())).unwrap();
    assert_eq!(all.len(), 3);
    assert_eq!(all[2].kind, BorderLineKind::Road);
    assert!(matches!(
        all_source_lines(TWO_POLYGONS, &Some(b"{}".to_vec()), &None),
        Err(MapError::NoFeatures)
    ));
    let mut lines = parse_country_lines(TWO_POLYGONS).unwrap();
    let road = Some(road.to_vec());
    assert!(add_source_lines(BorderLineKind::Road, &road, true, &mut lines).is_none());
    assert_eq!(lines.len(), 2, "a stopped reading adds nothing");
    assert!(add_source_lines(BorderLineKind::Road, &road, false, &mut lines).is_none());
    assert_eq!(lines.len(), 3);
}

#[test]
fn files_have_their_places() {
    let urls = detail_urls("roads.geojson");
    assert!(urls.iter().all(|u| u.ends_with("/roads.geojson")));
    assert_eq!(country_urls(BorderResolution::Low110m).len(), urls.len());
    assert!(country_urls(BorderResolution::Low110m)[0].contains("ne_110m_admin_0_countries"));
    assert!(tile_directory(BorderResolution::Low110m).starts_with("tiles/v1/"));
}

fn line(kind: BorderLineKind, xs: &[f64]) -> BorderLine {
    BorderLine {
        kind,
        points: xs.iter().map(|&x| point(x, 0.0)).collect(),
        bbox: Bounds { min_x: d(0.0), max_x: d(1.0), min_y: d(0.0), max_y: d(1.0) },
    }
}

#[test]
fn lines_that_repeat_are_kept_once() {
    let lines = vec![
        line(BorderLineKind::Country, &[0.0, 0.5]),
        line(BorderLineKind::Road, &[0.0, 0.5]),
        line(BorderLineKind::Country, &[0.0, 0.5]),
    ];
    assert_eq!(unique_lines(&lines), vec![0, 1]);
}

#[test]
fn the_first_of_the_farthest_points_stays() {
    let distances = [d(0.5), d(2.0), d(f64::NAN), d(2.0), d(1.0)];
    assert_eq!(farthest_point(7, &distances, d(1.0)), Some(9));
    assert_eq!(farthest_point(7, &distances, d(2.0)), None);
    assert_eq!(farthest_point(0, &[d(0.0), d(-1.0)], d(-5.0)), None);
    assert_eq!(farthest_point(0, &[], d(0.0)), None);
}

#[test]
fn thinning_out_a_line_comes_to_an_end() {
    let mut s = Simplification::new(6, false);
    let mut steps = 0;
    while let Some((a, b)) = s.next_stretch() {
        s.settle(Some((a + b) / 2));
        steps += 1;
    }
    assert_eq!(steps, 4);
    assert_eq!(s.finish(&vec![point(0.0, 0.0); 6]).len(), 6);
}

#[test]
fn many_repeated_lines_are_found() {
    let lines: Vec<BorderLine> = (0..6_000)
        .map(|i| BorderLine {
            kind: BorderLineKind::Road,
            points: vec![point((i % 2_000) as f64 / 7.0, 0.5), point(1.0, f64::NAN)],
            bbox: Bounds::default(),
        })
        .collect();
    let kept = unique_lines(&lines);
    assert_eq!(kept, (0..2_000).collect::<Vec<usize>>());
}
