use std::time::Duration;

use front::double::Double;
use front::geo::GeoPoint;
use front::location::{
    initial_viewport, is_on_globe, parse_ip, IpError, LocationArbiter, LocationFix,
    LocationSource, LocationState, REFRESH_INTERVAL, RETRY_INTERVAL, STALE_AFTER,
};
use front::retry::RetryPolicy;

fn d(x: f64) -> Double {
    Double::from_bits(x.to_bits())
}

const NOW: u64 = 1_000_000_000_000_000;

fn fix(source: LocationSource, accuracy_m: Option<f64>) -> LocationFix {
    LocationFix::new(GeoPoint::new(d(14.5), d(46.0)), accuracy_m.map(d), source, NOW)
}

fn aged(source: LocationSource, accuracy_m: Option<f64>, age: u64) -> LocationFix {
    LocationFix::new(GeoPoint::new(d(14.5), d(46.0)), accuracy_m.map(d), source, NOW - age)
}

#[test]
fn first_fix_is_always_accepted() {
    let mut arb = LocationArbiter::new();
    assert!(arb.offer(fix(LocationSource::Ip, Some(20_000.0))));
    assert_eq!(arb.current().unwrap().source, LocationSource::Ip);
}

#[test]
fn more_accurate_fix_replaces_coarser_one() {
    let mut arb = LocationArbiter::new();
    arb.offer(fix(LocationSource::Ip, Some(20_000.0)));
    assert!(arb.offer(fix(LocationSource::Platform, Some(12.0))));
    assert_eq!(arb.current().unwrap().accuracy_m, Some(d(12.0)));
}

#[test]
fn coarser_fix_does_not_replace_accurate_one() {
    let mut arb = LocationArbiter::new();
    arb.offer(fix(LocationSource::Platform, Some(12.0)));
    assert!(!arb.offer(fix(LocationSource::Ip, Some(20_000.0))));
    assert_eq!(arb.current().unwrap().accuracy_m, Some(d(12.0)));
}

#[test]
fn same_source_refreshes_even_when_less_accurate() {
    let mut arb = LocationArbiter::new();
    arb.offer(fix(LocationSource::Platform, Some(12.0)));
    assert!(arb.offer(fix(LocationSource::Platform, Some(80.0))));
    assert_eq!(arb.current().unwrap().accuracy_m, Some(d(80.0)));
}

#[test]
fn manual_fix_is_never_overridden() {
    let mut arb = LocationArbiter::new();
    arb.offer(fix(LocationSource::Manual, None));
    assert!(!arb.offer(fix(LocationSource::Platform, Some(1.0))));
    assert_eq!(arb.current().unwrap().source, LocationSource::Manual);
}

#[test]
fn manual_fix_overrides_anything_else() {
    let mut arb = LocationArbiter::new();
    arb.offer(fix(LocationSource::Platform, Some(1.0)));
    assert!(arb.offer(fix(LocationSource::Manual, None)));
    assert_eq!(arb.current().unwrap().source, LocationSource::Manual);
}

#[test]
fn stale_incumbent_loses_to_fresh_coarse_fix() {
    let mut arb = LocationArbiter::new();
    arb.offer(aged(LocationSource::Platform, Some(12.0), STALE_AFTER + 60_000_000_000));
    assert!(arb.offer(fix(LocationSource::Ip, Some(20_000.0))));
    assert_eq!(arb.current().unwrap().source, LocationSource::Ip);
}

#[test]
fn platform_fix_beats_ip_fix_of_identical_accuracy() {
    let mut arb = LocationArbiter::new();
    arb.offer(fix(LocationSource::Ip, Some(25_000.0)));
    assert!(arb.offer(fix(LocationSource::Platform, Some(25_000.0))));
    assert_eq!(arb.current().unwrap().source, LocationSource::Platform);
}

#[test]
fn ip_fix_does_not_beat_platform_fix_of_identical_accuracy() {
    let mut arb = LocationArbiter::new();
    arb.offer(fix(LocationSource::Platform, Some(25_000.0)));
    assert!(!arb.offer(fix(LocationSource::Ip, Some(25_000.0))));
    assert_eq!(arb.current().unwrap().source, LocationSource::Platform);
}

#[test]
fn known_accuracy_beats_unknown_accuracy() {
    let mut arb = LocationArbiter::new();
    arb.offer(fix(LocationSource::Platform, None));
    assert!(arb.offer(fix(LocationSource::Ip, Some(20_000.0))));
}

#[test]
fn better_source_wins_when_neither_reports_accuracy() {
    let mut arb = LocationArbiter::new();
    arb.offer(fix(LocationSource::Ip, None));
    assert!(arb.offer(fix(LocationSource::Platform, None)));
    assert_eq!(arb.current().unwrap().source, LocationSource::Platform);
}

/// The radius as the status line writes it.
fn radius(f: &LocationFix) -> String {
    match f.accuracy_m {
        Some(m) if f.is_coarse() => format!("{:.0}", f64::from_bits(m.bits) / 1000.0),
        Some(m) => format!("{:.0}", f64::from_bits(m.bits)),
        None => String::new(),
    }
}

#[test]
fn label_renders_metres_and_kilometres() {
    let platform = fix(LocationSource::Platform, Some(12.0));
    assert_eq!(platform.label("GeoClue", &radius(&platform)), "GeoClue ±12 m");
    let ip = fix(LocationSource::Ip, Some(20_000.0));
    assert_eq!(ip.label("GeoClue", &radius(&ip)), "IP ±20 km");
    let manual = fix(LocationSource::Manual, None);
    assert_eq!(manual.label("GeoClue", &radius(&manual)), "CLI");
}

#[test]
fn parses_lat_lon_keys() {
    let fix = parse_ip(r#"{"lat":46.05,"lon":14.51}"#, NOW).unwrap();
    assert_eq!(fix.point.lat, d(46.05));
    assert_eq!(fix.point.lon, d(14.51));
    assert_eq!(fix.source, LocationSource::Ip);
}

#[test]
fn parses_latitude_longitude_aliases() {
    let fix = parse_ip(r#"{"latitude":46.05,"longitude":14.51}"#, NOW).unwrap();
    assert_eq!(fix.point.lat, d(46.05));
    assert_eq!(fix.point.lon, d(14.51));
}

#[test]
fn reports_pessimistic_accuracy_so_platform_fixes_win() {
    let fix = parse_ip(r#"{"lat":46.05,"lon":14.51}"#, NOW).unwrap();
    assert_eq!(fix.accuracy_m, Some(d(25_000.0)));
}

#[test]
fn rejects_response_without_coordinates() {
    assert!(parse_ip(r#"{"error":"quota exceeded"}"#, NOW).is_err());
    assert_eq!(
        parse_ip(r#"{"error":"quota exceeded"}"#, NOW),
        Err(IpError::NoCoordinates)
    );
}

#[test]
fn ip_rejects_out_of_range_coordinates() {
    assert!(parse_ip(r#"{"lat":460.0,"lon":14.51}"#, NOW).is_err());
    assert_eq!(parse_ip(r#"{"lat":460.0,"lon":14.51}"#, NOW), Err(IpError::OutOfRange));
}

#[test]
fn ip_rejects_non_json_body() {
    assert!(parse_ip("<html>429 Too Many Requests</html>", NOW).is_err());
    assert_eq!(
        parse_ip("<html>429 Too Many Requests</html>", NOW),
        Err(IpError::Malformed)
    );
}

#[test]
fn retry_sequence_matches_today() {
    let policy = RetryPolicy::new(
        Duration::from_nanos(RETRY_INTERVAL),
        Duration::from_nanos(REFRESH_INTERVAL),
        None,
    );
    let expected = [60u64, 120, 240, 480, 960, 1800, 1800];
    for (failures, secs) in expected.into_iter().enumerate() {
        assert_eq!(
            policy.delay_for(failures as u32),
            Duration::from_secs(secs),
            "failures {failures}"
        );
    }
}

#[test]
fn coordinates_of_the_user_settle_the_start() {
    let plan = initial_viewport(Some(d(46.0)), Some(d(14.5)), None, false, NOW);
    assert_eq!((plan.view.lat, plan.view.lon, plan.view.zoom), (d(46.0), d(14.5), d(5.0)));
    assert_eq!(plan.manual.unwrap().source, LocationSource::Manual);
    assert!(!plan.ask);
    let plan = initial_viewport(Some(d(46.0)), None, Some(d(3.0)), true, NOW);
    assert_eq!(plan.view.zoom, d(3.0));
    assert!(plan.manual.is_none());
    assert!(!plan.ask);
    assert!(initial_viewport(None, None, None, false, NOW).ask);
}

#[test]
fn names_are_looked_up_once_per_place() {
    let mut s = LocationState::new(LocationArbiter::new());
    let first = s.drain_location_update(fix(LocationSource::Ip, Some(20_000.0)), false);
    assert!(first.changed && first.lookup.is_some() && !first.abort);
    let again = s.drain_location_update(fix(LocationSource::Platform, Some(12.0)), true);
    assert!(again.changed && again.lookup.is_none());
    let p = GeoPoint::new(d(14.5), d(46.0));
    assert!(s.drain_pin_label(p, Some("Ljubljana".to_string())));
    assert!(!s.drain_pin_label(p, Some("Ljubljana".to_string())));
    assert!(!s.drain_pin_label(GeoPoint::new(d(1.0), d(2.0)), Some("Elsewhere".to_string())));
    assert_eq!(s.label.as_deref(), Some("Ljubljana"));
}

#[test]
fn the_globe_ends_at_its_poles() {
    assert!(is_on_globe(d(90.0), d(-180.0)));
    assert!(!is_on_globe(d(90.1), d(0.0)));
    assert!(!is_on_globe(d(f64::NAN), d(0.0)));
}

#[test]
fn an_answer_may_be_a_list() {
    let fix = parse_ip("[46.05,14.51]", NOW).unwrap();
    assert_eq!(fix.point.lat, Double::from_bits(46.05f64.to_bits()));
    assert_eq!(fix.point.lon, Double::from_bits(14.51f64.to_bits()));
    assert_eq!(parse_ip("[46.05]", NOW), Err(IpError::Malformed));
    assert_eq!(parse_ip("[46.05,14.51,1]", NOW), Err(IpError::Malformed));
    assert_eq!(parse_ip("[46.05,null]", NOW), Err(IpError::NoCoordinates));
}
