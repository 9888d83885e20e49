use front::double::Double;
use front::geocode::{
    head_of_name, parse_places, parse_reverse, reverse_endpoint, reverse_query, search_query, throttle,
    GeocodeError,
    USER_AGENT,
};
use front::search::{Search, SearchOutcome, SearchResult};

const LJUBLJANA: &str = r#"[{"lat":"46.0500268","lon":"14.5069289",
        "display_name":"Ljubljana, Upravna Enota Ljubljana, 1000, Slovenija","type":"city"}]"#;

fn f(x: Double) -> f64 {
    f64::from_bits(x.bits)
}

#[test]
fn parses_string_coordinates() {
    let place = parse_places(LJUBLJANA).unwrap().unwrap();
    assert!((f(place.point.lat) - 46.0500268).abs() < 1e-9);
    assert!((f(place.point.lon) - 14.5069289).abs() < 1e-9);
    assert!(place.display_name.starts_with("Ljubljana"));
}

#[test]
fn empty_result_list_is_no_match_not_an_error() {
    assert_eq!(parse_places("[]").unwrap(), None);
}

#[test]
fn takes_the_first_result() {
    let body = r#"[{"lat":"1.0","lon":"2.0","display_name":"first"},
                       {"lat":"3.0","lon":"4.0","display_name":"second"}]"#;
    assert_eq!(parse_places(body).unwrap().unwrap().display_name, "first");
}

#[test]
fn missing_display_name_defaults_rather_than_failing() {
    let place = parse_places(r#"[{"lat":"1.0","lon":"2.0"}]"#).unwrap().unwrap();
    assert_eq!(place.display_name, "");
}

#[test]
fn rejects_unparsable_coordinates() {
    assert!(parse_places(r#"[{"lat":"abc","lon":"2.0","display_name":"x"}]"#).is_err());
}

#[test]
fn geocode_rejects_out_of_range_coordinates() {
    assert!(parse_places(r#"[{"lat":"460.0","lon":"2.0","display_name":"x"}]"#).is_err());
}

#[test]
fn geocode_rejects_non_json_body() {
    assert!(parse_places("<html>429 Too Many Requests</html>").is_err());
}

#[test]
fn reverse_prefers_the_city_field() {
    let body = r#"{"display_name":"Some Street, Ljubljana, Slovenija",
            "address":{"road":"Some Street","city":"Ljubljana","country":"Slovenija"}}"#;
    assert_eq!(parse_reverse(body).unwrap().as_deref(), Some("Ljubljana"));
}

#[test]
fn reverse_falls_through_to_smaller_settlement_types() {
    for (field, want) in [("town", "Bled"), ("village", "Bled"), ("hamlet", "Bled")] {
        let body = format!(
            r#"{{"display_name":"x","address":{{"{field}":"Bled","county":"Radovljica"}}}}"#
        );
        assert_eq!(parse_reverse(&body).unwrap().as_deref(), Some(want));
    }
}

#[test]
fn reverse_prefers_the_village_over_a_neighbouring_city() {
    let body = r#"{"display_name":"Trzin, Upravna Enota Domžale, 1236, Slovenija",
            "address":{"village":"Trzin","municipality":"Trzin","city":"Ljubljana"}}"#;
    assert_eq!(parse_reverse(body).unwrap().as_deref(), Some("Trzin"));
}

#[test]
fn reverse_names_trzin_from_its_real_response() {
    let body = r#"{"display_name":"Trzin, Upravna Enota Domžale, 1236, Slovenija",
            "address":{"village":"Trzin","municipality":"Trzin","postcode":"1236",
            "country":"Slovenija","country_code":"si"}}"#;
    assert_eq!(parse_reverse(body).unwrap().as_deref(), Some("Trzin"));
}

#[test]
fn reverse_names_ljubljana_not_its_quarter() {
    let body = r#"{"display_name":"x","address":{"suburb":"Četrtna skupnost Center",
            "city":"Ljubljana","municipality":"Ljubljana"}}"#;
    assert_eq!(parse_reverse(body).unwrap().as_deref(), Some("Ljubljana"));
}

#[test]
fn reverse_prefers_the_city_over_its_suburb() {
    let body = r#"{"display_name":"x","address":{"suburb":"Å iÅ¡ka","city":"Ljubljana"}}"#;
    assert_eq!(parse_reverse(body).unwrap().as_deref(), Some("Ljubljana"));
}

#[test]
fn reverse_falls_back_to_the_display_name_head() {
    let body = r#"{"display_name":"Triglav, Slovenija","address":{}}"#;
    assert_eq!(parse_reverse(body).unwrap().as_deref(), Some("Triglav"));
}

#[test]
fn reverse_with_nothing_usable_is_none_not_an_error() {
    let body = r#"{"display_name":"","address":{}}"#;
    assert_eq!(parse_reverse(body).unwrap(), None);
}

#[test]
fn reverse_skips_empty_settlement_fields() {
    let body = r#"{"display_name":"x","address":{"city":"  ","town":"Kranj"}}"#;
    assert_eq!(parse_reverse(body).unwrap().as_deref(), Some("Kranj"));
}

#[test]
fn reverse_rejects_non_json_body() {
    assert!(parse_reverse("<html>429 Too Many Requests</html>").is_err());
}

#[test]
fn reverse_endpoint_is_derived_from_the_search_endpoint() {
    assert_eq!(
        reverse_endpoint("https://nominatim.openstreetmap.org/search"),
        "https://nominatim.openstreetmap.org/reverse"
    );
}

#[test]
fn user_agent_identifies_the_app() {
    assert!(USER_AGENT.starts_with("front/"));
    assert!(USER_AGENT.contains("github.com"));
}

#[test]
fn each_bad_answer_has_its_error() {
    assert_eq!(parse_places("no json").unwrap_err(), GeocodeError::Malformed);
    assert_eq!(parse_places(r#"{"lat":"1"}"#).unwrap_err(), GeocodeError::Malformed);
    assert_eq!(
        parse_places(r#"[{"lat":"north","lon":"2.0"}]"#).unwrap_err(),
        GeocodeError::BadLatitude
    );
    assert_eq!(
        parse_places(r#"[{"lat":"1.0","lon":"east"}]"#).unwrap_err(),
        GeocodeError::BadLongitude
    );
    assert_eq!(
        parse_places(r#"[{"lat":"91.0","lon":"2.0"}]"#).unwrap_err(),
        GeocodeError::OutOfRange
    );
}

#[test]
fn requests_wait_a_second() {
    assert_eq!(throttle(None, 5), 0);
    assert_eq!(throttle(Some(1_000), 1_000), 1_000_000_000);
    assert_eq!(throttle(Some(0), 400_000_000), 600_000_000);
    assert_eq!(throttle(Some(0), 1_000_000_000), 0);
}

#[test]
fn a_name_is_cut_at_its_first_comma() {
    assert_eq!(head_of_name("Triglav, Slovenija").as_deref(), Some("Triglav"));
    assert_eq!(head_of_name(" , Slovenija"), None);
}

#[test]
fn the_prompt_collects_a_query() {
    let mut s = Search::new();
    assert!(!s.search_is_open());
    s.open_search();
    for c in " Bledx".chars() {
        s.search_push_char(c);
    }
    s.search_backspace();
    assert!(s.search_is_open());
    let plan = s.submit_search().unwrap();
    assert_eq!(plan.query, "Bled");
    assert!(!plan.abort);
    assert!(!s.search_is_open());
    assert_eq!(s.status.as_deref(), Some("Searching for \"Bled\"\u{2026}"));
    s.open_search();
    s.cancel_search();
    assert!(!s.search_is_open());
    s.open_search();
    s.search_push_char(' ');
    assert!(s.submit_search().is_none());
}

fn double(x: f64) -> Double {
    Double::from_bits(x.to_bits())
}

#[test]
fn a_place_that_is_found_gets_the_pin() {
    let mut s = Search::new();
    s.open_search();
    s.search_push_char('B');
    let id = s.submit_search().unwrap().id;
    let place = parse_places(LJUBLJANA).unwrap().unwrap();
    let late = SearchResult { id: id + 1, query: "B".into(), outcome: SearchOutcome::NoMatch };
    assert!(!s.drain_search_result(late, double(4.0)).0);
    let found = SearchResult { id, query: "B".into(), outcome: SearchOutcome::Found(place) };
    let (taken, jump) = s.drain_search_result(found, double(4.0));
    assert!(taken);
    assert_eq!(f(jump.unwrap().lat), 46.0500268);
    assert_eq!(s.label.as_deref(), Some("Ljubljana"));
    assert!(s.pin.is_some() && s.pin_shown);
    s.clear_search_pin();
    assert!(s.pin.is_none());
    let none = SearchResult { id, query: "B".into(), outcome: SearchOutcome::NoMatch };
    assert!(s.drain_search_result(none, double(4.0)).1.is_none());
    assert_eq!(s.status.as_deref(), Some("No match for \"B\""));
    let error = SearchResult { id, query: "B".into(), outcome: SearchOutcome::Error("down".into()) };
    s.drain_search_result(error, double(4.0));
    assert_eq!(s.status.as_deref(), Some("Search failed: down"));
}

#[test]
fn a_record_may_be_a_list_of_its_fields() {
    let place = parse_places(r#"[["46.05","14.51","Ljubljana"]]"#).unwrap().unwrap();
    assert_eq!(place.display_name, "Ljubljana");
    assert_eq!(parse_places(r#"[["46.05","14.51"]]"#).unwrap().unwrap().display_name, "");
    assert!(parse_places(r#"[["46.05"]]"#).is_err());
    assert!(parse_places(r#"[["46.05","14.51","a","b"]]"#).is_err());
    let body = r#"[["Ljubljana",null,"Trzin"],"full name, x"]"#;
    assert_eq!(parse_reverse(body).unwrap().as_deref(), Some("Trzin"));
    assert_eq!(parse_reverse(r#"[[],"full name, x"]"#).unwrap().as_deref(), Some("full name"));
    assert_eq!(parse_reverse("[]").unwrap(), None);
    assert!(parse_reverse("[{},\"a\",1]").is_err());
}

#[test]
fn a_query_asks_for_one_result() {
    assert_eq!(search_query("  "), None);
    let q = search_query(" Trzin ").unwrap();
    let q: Vec<(&str, &str)> = q.iter().map(|(a, b)| (a.as_str(), b.as_str())).collect();
    assert_eq!(
        q,
        vec![("q", "Trzin"), ("format", "jsonv2"), ("limit", "1"), ("addressdetails", "0")]
    );
    let q = reverse_query("46.1", "14.5");
    assert_eq!(q[0], ("lat".to_string(), "46.1".to_string()));
    assert_eq!(q[1], ("lon".to_string(), "14.5".to_string()));
    assert_eq!(q[3], ("zoom".to_string(), "13".to_string()));
    assert_eq!(q[4], ("addressdetails".to_string(), "1".to_string()));
}
