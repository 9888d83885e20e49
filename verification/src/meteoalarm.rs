//! Weather warnings as the service publishes them.

use serde_json::Value;
use vstd::prelude::*;
use vstd::string::*;

use crate::config::MeteoAlarmConfig;
use crate::double::Double;
use crate::geo::GeoPoint;
use crate::json::{
    as_array, as_number, as_str, at, get, get_in, items_in, items_of, json, json_of_bytes, jsons,
    lent, parse_bytes, text_at, text_in, JsonModel,
};
use crate::text::same_text;

verus! {

/// A warning with its outline in degrees.
#[derive(Debug)]
pub struct RawWarning {
    pub ring: Vec<GeoPoint>,
    pub awareness_level: String,
    pub event: String,
    pub country_code: String,
    /// Seconds since the epoch.
    pub onset: Option<i64>,
    /// Seconds since the epoch.
    pub expires: Option<i64>,
}

/// What a warning holds.
#[verifier::ext_equal]
pub struct WarningModel {
    pub ring: Seq<GeoPoint>,
    pub awareness_level: Seq<char>,
    pub event: Seq<char>,
    pub country_code: Seq<char>,
    pub onset: Option<i64>,
    pub expires: Option<i64>,
}

impl View for RawWarning {
    type V = WarningModel;

    open spec fn view(&self) -> WarningModel {
        WarningModel {
            ring: self.ring@,
            awareness_level: self.awareness_level@,
            event: self.event@,
            country_code: self.country_code@,
            onset: self.onset,
            expires: self.expires,
        }
    }
}

/// The seconds since the epoch of a time in the format of RFC 3339.
pub uninterp spec fn rfc3339_seconds(text: Seq<char>) -> Option<i64>;

/// `chrono::DateTime::parse_from_rfc3339` reads a time, here as
/// `DateTime::timestamp` gives it.
#[verifier::external_body]
fn parse_time(text: &str) -> (r: Option<i64>)
    ensures
        r == rfc3339_seconds(text@),
{
    chrono::DateTime::parse_from_rfc3339(text).ok().map(|t| t.timestamp())
}

/// The number that a value holds, zero where it holds none.
pub open spec fn number_or_zero(v: JsonModel) -> Double {
    match v.number() {
        Some(d) => d,
        None => Double { bits: 0 },
    }
}

/// The points among the first `n` items: those that are arrays of at least
/// two, the longitude first.
pub open spec fn ring_points(items: Seq<JsonModel>, n: nat) -> Seq<GeoPoint>
    decreases n,
{
    if n == 0 || n > items.len() {
        Seq::empty()
    } else {
        let before = ring_points(items, (n - 1) as nat);
        match items[n - 1].items() {
            Some(pair) => if pair.len() >= 2 {
                before.push(
                    GeoPoint { lon: number_or_zero(pair[0]), lat: number_or_zero(pair[1]) },
                )
            } else {
                before
            },
            None => before,
        }
    }
}

/// The first ring of a polygon.
pub open spec fn first_ring(geometry: Option<JsonModel>) -> Seq<JsonModel> {
    match items_of(at(geometry, "coordinates"@)) {
        Some(rings) => if rings.len() == 0 {
            Seq::empty()
        } else {
            match rings[0].items() {
                Some(points) => points,
                None => Seq::empty(),
            }
        },
        None => Seq::empty(),
    }
}

/// A text among the properties, empty where there is none.
pub open spec fn property(feature: JsonModel, name: Seq<char>) -> Seq<char> {
    match text_at(at(feature.at("properties"@), name)) {
        Some(t) => t,
        None => Seq::empty(),
    }
}

/// A time among the properties.
pub open spec fn time_property(feature: JsonModel, name: Seq<char>) -> Option<i64> {
    match text_at(at(feature.at("properties"@), name)) {
        Some(t) => rfc3339_seconds(t),
        None => None,
    }
}

/// The warning of a feature, none where it is not a polygon with a point.
pub open spec fn warning_of(feature: JsonModel) -> Option<WarningModel> {
    let geometry = feature.at("geometry"@);
    let points = first_ring(geometry);
    let ring = ring_points(points, points.len());
    if text_at(at(geometry, "type"@)) != Some("Polygon"@) || ring.len() == 0 {
        None
    } else {
        Some(
            WarningModel {
                ring,
                awareness_level: property(feature, "awareness_level"@),
                event: property(feature, "awareness_type"@),
                country_code: property(feature, "countryCode"@),
                onset: time_property(feature, "onset"@),
                expires: time_property(feature, "expires"@),
            },
        )
    }
}

/// The warnings among the first `n` features.
pub open spec fn warnings_in(features: Seq<JsonModel>, n: nat) -> Seq<WarningModel>
    decreases n,
{
    if n == 0 || n > features.len() {
        Seq::empty()
    } else {
        let before = warnings_in(features, (n - 1) as nat);
        match warning_of(features[n - 1]) {
            Some(w) => before.push(w),
            None => before,
        }
    }
}

/// The features of a response, none where it has no list of them.
pub open spec fn features_of(v: JsonModel) -> Seq<JsonModel> {
    match items_of(v.at("features"@)) {
        Some(f) => f,
        None => Seq::empty(),
    }
}

pub fn read_number(v: &Value) -> (d: Double)
    ensures
        d == number_or_zero(json(*v)),
{
    match as_number(v) {
        Some(d) => d,
        None => Double::from_bits(0),
    }
}

fn read_ring(items: &Vec<Value>) -> (r: Vec<GeoPoint>)
    ensures
        r@ == ring_points(jsons(items@), items@.len()),
{
    let ghost models = jsons(items@);
    let mut r: Vec<GeoPoint> = Vec::new();
    let mut i: usize = 0;
    while i < items.len()
        invariant
            i <= items.len(),
            models == jsons(items@),
            r@ == ring_points(models, i as nat),
        decreases items.len() - i,
    {
        assert(models[i as int] == json(items@[i as int]));
        match as_array(&items[i]) {
            Some(pair) => {
                if pair.len() >= 2 {
                    assert(jsons(pair@)[0] == json(pair@[0]));
                    assert(jsons(pair@)[1] == json(pair@[1]));
                    r.push(GeoPoint { lon: read_number(&pair[0]), lat: read_number(&pair[1]) });
                }
            },
            None => {},
        }
        i = i + 1;
    }
    r
}

fn read_property(feature: &Value, name: &str) -> (s: String)
    ensures
        s@ == property(json(*feature), name@),
{
    match text_in(get_in(get(feature, "properties"), name)) {
        Some(t) => t.to_string(),
        None => String::new(),
    }
}

fn read_time(feature: &Value, name: &str) -> (r: Option<i64>)
    ensures
        r == time_property(json(*feature), name@),
{
    match text_in(get_in(get(feature, "properties"), name)) {
        Some(t) => parse_time(t),
        None => None,
    }
}

fn read_warning(feature: &Value) -> (r: Option<RawWarning>)
    ensures
        match r {
            Some(w) => warning_of(json(*feature)) == Some(w@),
            None => warning_of(json(*feature)) is None,
        },
{
    let geometry = get(feature, "geometry");
    match text_in(get_in(geometry, "type")) {
        Some(t) => {
            if !same_text(t, "Polygon") {
                return None;
            }
        },
        None => {
            return None;
        },
    }
    let ghost points = first_ring(lent(geometry));
    let ring: Vec<GeoPoint> = match items_in(get_in(geometry, "coordinates")) {
        Some(rings) => {
            if rings.len() == 0 {
                Vec::new()
            } else {
                assert(jsons(rings@)[0] == json(rings@[0]));
                match as_array(&rings[0]) {
                    Some(points) => read_ring(points),
                    None => Vec::new(),
                }
            }
        },
        None => Vec::new(),
    };
    assert(ring@ =~= ring_points(points, points.len()));
    if ring.len() == 0 {
        return None;
    }
    Some(
        RawWarning {
            ring,
            awareness_level: read_property(feature, "awareness_level"),
            event: read_property(feature, "awareness_type"),
            country_code: read_property(feature, "countryCode"),
            onset: read_time(feature, "onset"),
            expires: read_time(feature, "expires"),
        },
    )
}

/// The service answered with something that is no JSON.
#[derive(Debug, Clone, Copy, PartialEq, Eq, Structural)]
pub struct MalformedResponse;

/// Read the warnings from a response.
pub fn parse_warnings(body: &[u8]) -> (r: Result<Vec<RawWarning>, MalformedResponse>)
    ensures
        r is Ok <==> json_of_bytes(body@) is Some,
        r matches Ok(w) ==> ({
            let f = features_of(json_of_bytes(body@)->0);
            w@.map_values(|w: RawWarning| w@) == warnings_in(f, f.len())
        }),
{
    let v = match parse_bytes(body) {
        Some(v) => v,
        None => {
            return Err(MalformedResponse);
        },
    };
    let ghost view = |w: RawWarning| w@;
    let mut r: Vec<RawWarning> = Vec::new();
    assert(r@.map_values(view) =~= Seq::<WarningModel>::empty());
    match items_in(get(&v, "features")) {
        Some(features) => {
            let ghost models = jsons(features@);
            let mut i: usize = 0;
            while i < features.len()
                invariant
                    i <= features.len(),
                    models == jsons(features@),
                    view == (|w: RawWarning| w@),
                    r@.map_values(view) == warnings_in(models, i as nat),
                decreases features.len() - i,
            {
                assert(models[i as int] == json(features@[i as int]));
                match read_warning(&features[i]) {
                    Some(w) => {
                        let ghost r0 = r@;
                        r.push(w);
                        assert(r@.map_values(view) =~= r0.map_values(view).push(w@));
                    },
                    None => {},
                }
                i = i + 1;
            }
        },
        None => {},
    }
    Ok(r)
}

/// The outline of a warning runs through the positions of its polygon's first
/// ring, in their order: of each, the first number is the longitude and the
/// second the latitude.
pub proof fn outlines_follow_the_ring(
    feature: JsonModel,
    geometry: JsonModel,
    rings: Seq<JsonModel>,
    ring: Seq<JsonModel>,
)
    requires
        feature.at("geometry"@) == Some(geometry),
        geometry.at("type"@) == Some(JsonModel::Text("Polygon"@)),
        geometry.at("coordinates"@) == Some(JsonModel::Array(rings)),
        rings.len() > 0,
        rings[0] == JsonModel::Array(ring),
        ring.len() > 0,
        forall|i: int|
            0 <= i < ring.len() ==> ((#[trigger] ring[i]) matches JsonModel::Array(c) && c.len()
                >= 2 && c[0] is Number && c[1] is Number),
    ensures
        warning_of(feature) is Some,
        warning_of(feature)->0.ring.len() == ring.len(),
        forall|i: int|
            0 <= i < ring.len() ==> ((#[trigger] ring[i]) matches JsonModel::Array(c)
                && c[0] matches JsonModel::Number(x, _) && c[1] matches JsonModel::Number(y, _)
                && warning_of(feature)->0.ring[i].lon.bits == x
                && warning_of(feature)->0.ring[i].lat.bits == y),
{
    lemma_ring_points(ring, ring.len());
}

/// What is no polygon, or a polygon without a ring, is no warning.
pub proof fn only_polygons_are_warnings(feature: JsonModel, geometry: JsonModel)
    requires
        feature.at("geometry"@) == Some(geometry),
        geometry.at("type"@) != Some(JsonModel::Text("Polygon"@)) || geometry.at("coordinates"@)
            == Some(JsonModel::Array(Seq::empty())),
    ensures
        warning_of(feature) is None,
{
    match geometry.at("type"@) {
        Some(JsonModel::Text(t)) => {},
        _ => {},
    }
}

proof fn lemma_ring_points(items: Seq<JsonModel>, n: nat)
    requires
        n <= items.len(),
        forall|i: int|
            0 <= i < items.len() ==> ((#[trigger] items[i]) matches JsonModel::Array(c) && c.len()
                >= 2),
    ensures
        ring_points(items, n).len() == n,
        forall|i: int|
            0 <= i < n ==> (#[trigger] ring_points(items, n)[i]) == (GeoPoint {
                lon: number_or_zero(items[i]->Array_0[0]),
                lat: number_or_zero(items[i]->Array_0[1]),
            }),
    decreases n,
{
    if n > 0 {
        lemma_ring_points(items, (n - 1) as nat);
        assert(items[n - 1] is Array);
    }
}

/// A warning says what the properties of its feature say under the names of the
/// service.
pub proof fn warnings_say_what_their_properties_say(feature: JsonModel, properties: JsonModel)
    requires
        warning_of(feature) is Some,
        feature.at("properties"@) == Some(properties),
    ensures
        properties.at("awareness_level"@) matches Some(JsonModel::Text(t)) ==> warning_of(
            feature,
        )->0.awareness_level == t,
        properties.at("awareness_type"@) matches Some(JsonModel::Text(t)) ==> warning_of(
            feature,
        )->0.event == t,
        properties.at("countryCode"@) matches Some(JsonModel::Text(t)) ==> warning_of(
            feature,
        )->0.country_code == t,
        properties.at("onset"@) matches Some(JsonModel::Text(t)) ==> warning_of(feature)->0.onset
            == rfc3339_seconds(t),
        properties.at("expires"@) matches Some(JsonModel::Text(t)) ==> warning_of(
            feature,
        )->0.expires == rfc3339_seconds(t),
        properties.at("onset"@) is None ==> warning_of(feature)->0.onset is None,
        properties.at("expires"@) is None ==> warning_of(feature)->0.expires is None,
{
}

/// Where every feature of a response is a warning, the warnings are those of the
/// features, in their order; one that is none is left out and changes nothing
/// else.
pub proof fn every_feature_gives_its_warning(v: JsonModel, features: Seq<JsonModel>)
    requires
        v.at("features"@) == Some(JsonModel::Array(features)),
    ensures
        (forall|i: int| 0 <= i < features.len() ==> warning_of(#[trigger] features[i]) is Some)
            ==> warnings_in(features_of(v), features_of(v).len()) == Seq::new(
            features.len(),
            |i: int| warning_of(features[i])->0,
        ),
        forall|i: int|
            0 <= i < features.len() && warning_of(#[trigger] features[i]) is None ==> warnings_in(
                features,
                features.len(),
            ) == warnings_in(features.remove(i), (features.len() - 1) as nat),
{
    if forall|i: int| 0 <= i < features.len() ==> warning_of(#[trigger] features[i]) is Some {
        lemma_all_warnings(features, features.len());
    }
    assert forall|i: int|
        0 <= i < features.len() && warning_of(#[trigger] features[i]) is None implies warnings_in(
        features,
        features.len(),
    ) == warnings_in(features.remove(i), (features.len() - 1) as nat) by {
        lemma_left_out(features, i, features.len());
    }
}

proof fn lemma_all_warnings(features: Seq<JsonModel>, n: nat)
    requires
        n <= features.len(),
        forall|i: int| 0 <= i < features.len() ==> warning_of(#[trigger] features[i]) is Some,
    ensures
        warnings_in(features, n) == Seq::new(n, |i: int| warning_of(features[i])->0),
    decreases n,
{
    if n > 0 {
        lemma_all_warnings(features, (n - 1) as nat);
        assert(warning_of(features[n - 1]) is Some);
    }
    assert(warnings_in(features, n) =~= Seq::new(n, |i: int| warning_of(features[i])->0));
}

proof fn lemma_left_out(features: Seq<JsonModel>, i: int, n: nat)
    requires
        0 <= i < n <= features.len(),
        warning_of(features[i]) is None,
    ensures
        warnings_in(features, n) == warnings_in(features.remove(i), (n - 1) as nat),
    decreases n,
{
    if i < n - 1 {
        lemma_left_out(features, i, (n - 1) as nat);
        assert(features.remove(i)[n - 2] == features[n - 1]);
    } else {
        lemma_same_warnings(features, features.remove(i), (n - 1) as nat);
    }
}

proof fn lemma_same_warnings(a: Seq<JsonModel>, b: Seq<JsonModel>, n: nat)
    requires
        n <= a.len(),
        n <= b.len(),
        forall|i: int| 0 <= i < n ==> a[i] == b[i],
    ensures
        warnings_in(a, n) == warnings_in(b, n),
    decreases n,
{
    if n > 0 {
        lemma_same_warnings(a, b, (n - 1) as nat);
    }
}

/// The address of the warnings: all of Europe, with the token where there is
/// one.
pub open spec fn warnings_address(endpoint: Seq<char>, token: Seq<char>) -> Seq<char> {
    let base = endpoint + "/collections/warnings/locations/ALL"@;
    if token.len() == 0 {
        base
    } else {
        base + "?token="@ + token
    }
}

pub fn warnings_url(config: &MeteoAlarmConfig) -> (s: String)
    ensures
        s@ == warnings_address(config.api_endpoint@, config.token@),
{
    let base = config.api_endpoint.as_str().to_string().concat(
        "/collections/warnings/locations/ALL",
    );
    if crate::text::chars_of(config.token.as_str()).len() == 0 {
        base
    } else {
        base.concat("?token=").concat(config.token.as_str())
    }
}

/// A saved answer is used for five minutes.
pub const WARNINGS_FRESH_SECS: u64 = 300;

/// Whether an answer that was saved so many seconds ago is used again; none
/// stands for an age that is not known.
pub fn cache_is_fresh(age_secs: Option<u64>) -> (r: bool)
    ensures
        r == (age_secs matches Some(a) && a < WARNINGS_FRESH_SECS),
{
    match age_secs {
        Some(a) => a < WARNINGS_FRESH_SECS,
        None => false,
    }
}

} // verus!
