use front::double::Double;
use front::geo::WorldPoint;
use front::lightning::{
    connected_sentinel, decode, parse_strike, read_message, reconnect_wait, server_for,
    LightningTrail, StreamDown, MAX_STRIKES, MINUTE,
};

fn d(x: f64) -> Double {
    Double::from_bits(x.to_bits())
}

#[test]
fn decode_roundtrip_ascii() {
    let s = r#"{"lat":1.0,"lon":2.0}"#;
    assert_eq!(decode(s), s);
}

#[test]
fn decode_empty() {
    assert_eq!(decode(""), "");
}

#[test]
fn decode_single_char() {
    assert_eq!(decode("x"), "x");
}

#[test]
fn decode_with_dict_lookup_produces_repeated_pair() {
    let encoded = "ab\u{0100}";
    assert_eq!(decode(encoded), "abab");
}

#[test]
fn decode_with_two_dict_lookups() {
    let encoded = "ab\u{0100}\u{0101}";
    assert_eq!(decode(encoded), "ababba");
}

#[test]
fn decode_strike_json_identity() {
    let json = r#"{"lat":48.21,"lon":16.37,"pol":1}"#;
    let decoded = decode(json);
    let strike = parse_strike(&decoded).unwrap();
    assert!((f64::from_bits(strike.lat.bits) - 48.21).abs() < 0.001);
    assert!((f64::from_bits(strike.lon.bits) - 16.37).abs() < 0.001);
    assert_eq!(strike.pol, 1);
}

#[test]
fn decode_strike_json_negative_polarity() {
    let json = r#"{"lat":0.0,"lon":0.0,"pol":-1}"#;
    let decoded = decode(json);
    let strike = parse_strike(&decoded).unwrap();
    assert_eq!(strike.pol, -1);
}

#[test]
fn messages_that_are_no_strikes_are_ignored() {
    assert!(read_message("hello").is_none());
    assert!(read_message(r#"{"lat":1.0,"lon":2.0}"#).is_none());
    let strike = read_message(r#"{"lat":1,"lon":2,"pol":300}"#).unwrap();
    assert_eq!(strike.polarity(), 127);
    assert_eq!(strike.lat, d(1.0));
    assert_eq!(read_message(r#"{"lat":1,"lon":2,"pol":-300}"#).unwrap().polarity(), -127);
}

#[test]
fn servers_take_turns() {
    assert_eq!(server_for(0), "wss://ws1.blitzortung.org");
    assert_eq!(server_for(1), "wss://ws7.blitzortung.org");
    assert_eq!(server_for(2), "wss://ws8.blitzortung.org");
    assert_eq!(server_for(3), server_for(0));
    assert_eq!(reconnect_wait(StreamDown::ConnectFailed), 5);
    assert_eq!(reconnect_wait(StreamDown::SubscribeFailed), 2);
    assert_eq!(reconnect_wait(StreamDown::Disconnected), 3);
}

#[test]
fn strikes_age_off_the_map() {
    let mut t = LightningTrail::new(10);
    assert!(!t.request_lightning_connect());
    let p = WorldPoint { x: d(0.5), y: d(0.5) };
    assert!(t.drain_lightning_results(&[(connected_sentinel(), 0), (p, 1)], 1_000));
    assert_eq!(t.strikes.len(), 1);
    assert!(t.has_lightning_impact(1_000 + 899_999_999));
    assert!(!t.has_lightning_impact(1_000 + 900_000_000));
    t.drain_lightning_results(&[], 1_000 + 10 * MINUTE - 1);
    assert_eq!(t.strikes.len(), 1);
    assert!(t.drain_lightning_results(&[], 1_000 + 10 * MINUTE));
    assert!(t.strikes.is_empty());
    assert!(t.abort_lightning());
}

#[test]
fn only_so_many_strikes_are_kept() {
    let mut t = LightningTrail::new(10);
    let p = WorldPoint { x: d(0.5), y: d(0.5) };
    let mut many = vec![(p, 1i8); MAX_STRIKES];
    many.push((p, -1));
    t.drain_lightning_results(&many, 5);
    assert_eq!(t.strikes.len(), MAX_STRIKES);
    assert_eq!(t.strikes[MAX_STRIKES - 1].pol, -1);
}

#[test]
fn a_strike_may_be_a_list() {
    let strike = parse_strike("[46.5,14.25,-1]").unwrap();
    assert_eq!(strike.lat, Double::from_bits(46.5f64.to_bits()));
    assert_eq!(strike.lon, Double::from_bits(14.25f64.to_bits()));
    assert_eq!(strike.pol, -1);
    assert!(parse_strike("[46.5,14.25]").is_none());
    assert!(parse_strike("[46.5,14.25,-1,0]").is_none());
}
