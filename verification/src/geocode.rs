//! Place search: what a geocoding service answers, and when it may be asked.

use serde_json::Value;
use vstd::prelude::*;
use vstd::string::*;

use crate::double::{decimal, parse_double, Double};
use crate::geo::{GeoPoint, MAX_LAT_BITS, MAX_LON_BITS, MIN_LAT_BITS, MIN_LON_BITS};
use crate::json::{
    as_array, as_str, field_of, get_field, has_record_shape, is_null, is_record, json, json_of_text,
    jsons, parse_text, text_at, JsonModel,
};
use crate::location::{is_on_globe, on_globe};
use crate::text::{
    before, blank, chars_of, first_at, is_blank, matches_at, part_before, stands_at, text_of, trim,
    trim_chars, trimmed, white,
};

verus! {

/// A place that was found.
#[derive(Debug, PartialEq, Eq)]
pub struct Place {
    pub point: GeoPoint,
    pub display_name: String,
}

/// Why a response is of no use.
#[derive(Debug, Clone, Copy, PartialEq, Eq, Structural)]
pub enum GeocodeError {
    /// It is no JSON of the expected shape.
    Malformed,
    BadLatitude,
    BadLongitude,
    /// The coordinates do not lie on the globe.
    OutOfRange,
}

/// A result as the service writes it: coordinates and name as texts.
pub struct RawPlace {
    pub lat: Seq<char>,
    pub lon: Seq<char>,
    pub name: Seq<char>,
}

/// A result, none where a coordinate is missing or something is no text. The
/// name is empty where it is missing.
pub open spec fn raw_place(v: JsonModel) -> Option<RawPlace> {
    match (
        field_of(v, "lat"@, 0),
        field_of(v, "lon"@, 1),
        field_of(v, "display_name"@, 2),
    ) {
        _ if !is_record(v, 2, 3) => None,
        (Some(JsonModel::Text(lat)), Some(JsonModel::Text(lon)), None) => Some(
            RawPlace { lat, lon, name: Seq::empty() },
        ),
        (
            Some(JsonModel::Text(lat)),
            Some(JsonModel::Text(lon)),
            Some(JsonModel::Text(name)),
        ) => Some(RawPlace { lat, lon, name }),
        _ => None,
    }
}

/// Whether every item is a result.
pub open spec fn all_places(items: Seq<JsonModel>) -> bool {
    forall|i: int| 0 <= i < items.len() ==> raw_place(#[trigger] items[i]) is Some
}

/// What a result comes to: its point and its name.
pub open spec fn resolved(p: RawPlace) -> Result<(GeoPoint, Seq<char>), GeocodeError> {
    match (decimal(p.lat), decimal(p.lon)) {
        (None, _) => Err(GeocodeError::BadLatitude),
        (Some(_), None) => Err(GeocodeError::BadLongitude),
        (Some(lat), Some(lon)) => if on_globe(lat, lon) {
            Ok((GeoPoint::bounded(lon, lat), p.name))
        } else {
            Err(GeocodeError::OutOfRange)
        },
    }
}

/// What a response comes to: its first result, none where there is none.
pub open spec fn answer(v: Option<JsonModel>) -> Result<
    Option<(GeoPoint, Seq<char>)>,
    GeocodeError,
> {
    match v {
        Some(JsonModel::Array(items)) => if !all_places(items) {
            Err(GeocodeError::Malformed)
        } else if items.len() == 0 {
            Ok(None)
        } else {
            match resolved(raw_place(items[0])->0) {
                Ok(p) => Ok(Some(p)),
                Err(e) => Err(e),
            }
        },
        _ => Err(GeocodeError::Malformed),
    }
}

/// The three texts of a result.
fn read_place(v: &Value) -> (r: Option<(String, String, String)>)
    ensures
        match r {
            Some((lat, lon, name)) => raw_place(json(*v)) == Some(
                RawPlace { lat: lat@, lon: lon@, name: name@ },
            ),
            None => raw_place(json(*v)) is None,
        },
{
    if !has_record_shape(v, 2, 3) {
        return None;
    }
    let lat = match get_field(v, "lat", 0) {
        Some(t) => as_str(t),
        None => None,
    };
    let lon = match get_field(v, "lon", 1) {
        Some(t) => as_str(t),
        None => None,
    };
    match (lat, lon) {
        (Some(lat), Some(lon)) => match get_field(v, "display_name", 2) {
            Some(t) => match as_str(t) {
                Some(name) => Some((lat.to_string(), lon.to_string(), name.to_string())),
                None => None,
            },
            None => Some((lat.to_string(), lon.to_string(), String::new())),
        },
        _ => None,
    }
}

/// What a found place holds.
pub open spec fn found(r: Option<Place>) -> Option<(GeoPoint, Seq<char>)> {
    match r {
        Some(p) => Some((p.point, p.display_name@)),
        None => None,
    }
}

/// Read the answer to a search.
pub fn parse_places(body: &str) -> (r: Result<Option<Place>, GeocodeError>)
    ensures
        match r {
            Ok(p) => answer(json_of_text(body@)) == Ok::<_, GeocodeError>(found(p)),
            Err(e) => answer(json_of_text(body@)) == Err::<Option<(GeoPoint, Seq<char>)>, _>(e),
        },
{
    let v = match parse_text(body) {
        Some(v) => v,
        None => {
            return Err(GeocodeError::Malformed);
        },
    };
    let items = match as_array(&v) {
        Some(items) => items,
        None => {
            return Err(GeocodeError::Malformed);
        },
    };
    let ghost models = jsons(items@);
    let mut first: Option<(String, String, String)> = None;
    let mut i: usize = 0;
    while i < items.len()
        invariant
            i <= items.len(),
            models == jsons(items@),
            json(v) == JsonModel::Array(models),
            json_of_text(body@) == Some(json(v)),
            forall|k: int| 0 <= k < i ==> raw_place(#[trigger] models[k]) is Some,
            first is Some <==> i > 0,
            first matches Some((lat, lon, name)) ==> raw_place(models[0]) == Some(
                RawPlace { lat: lat@, lon: lon@, name: name@ },
            ),
        decreases items.len() - i,
    {
        assert(models[i as int] == json(items@[i as int]));
        match read_place(&items[i]) {
            Some(p) => {
                if i == 0 {
                    first = Some(p);
                }
            },
            None => {
                assert(!all_places(models));
                return Err(GeocodeError::Malformed);
            },
        }
        i = i + 1;
    }
    assert(all_places(models));
    match first {
        None => Ok(None),
        Some((lat, lon, name)) => {
            let lat = match parse_double(lat.as_str()) {
                Some(d) => d,
                None => {
                    return Err(GeocodeError::BadLatitude);
                },
            };
            let lon = match parse_double(lon.as_str()) {
                Some(d) => d,
                None => {
                    return Err(GeocodeError::BadLongitude);
                },
            };
            if !is_on_globe(lat, lon) {
                return Err(GeocodeError::OutOfRange);
            }
            Ok(Some(Place { point: GeoPoint::new(lon, lat), display_name: name }))
        },
    }
}

/// The place itself in a name with its surroundings: what stands before the
/// first comma, none where that is blank.
pub open spec fn place_name(name: Seq<char>) -> Option<Seq<char>> {
    let h = trimmed(before(name, ','));
    if h.len() == 0 {
        None
    } else {
        Some(h)
    }
}

pub open spec fn text_model(r: Option<String>) -> Option<Seq<char>> {
    match r {
        Some(s) => Some(s@),
        None => None,
    }
}

/// The place itself in a name with its surroundings.
pub fn head_of_name(name: &str) -> (r: Option<String>)
    ensures
        text_model(r) == place_name(name@),
{
    let h = trim_chars(part_before(name, ',').as_slice());
    if chars_of(h.as_str()).len() == 0 {
        None
    } else {
        Some(h)
    }
}

/// The fields of an address in the order in which they are preferred: the
/// smallest settlement first, a quarter of a city behind the city, and the
/// county last.
pub open spec fn settlement_fields() -> Seq<Seq<char>> {
    seq![
        "hamlet"@,
        "village"@,
        "town"@,
        "municipality"@,
        "city"@,
        "suburb"@,
        "county"@,
    ]
}

/// The place of each of them in an address that is a list.
pub open spec fn settlement_places() -> Seq<int> {
    seq![3int, 2, 1, 5, 0, 4, 6]
}

/// The field of an address that comes at place `i` by preference.
pub open spec fn address_field(v: JsonModel, i: int) -> Option<JsonModel> {
    field_of(v, settlement_fields()[i], settlement_places()[i])
}

/// A field of an address: a text, or nothing.
pub open spec fn is_field(v: Option<JsonModel>) -> bool {
    match v {
        None => true,
        Some(JsonModel::Null) => true,
        Some(JsonModel::Text(_)) => true,
        _ => false,
    }
}

/// Whether a value is an address: a record whose fields are texts.
pub open spec fn is_address(v: JsonModel) -> bool {
    &&& is_record(v, 0, 7)
    &&& forall|i: int| 0 <= i < 7 ==> is_field(#[trigger] address_field(v, i))
}

/// The first field from `from` on that is not blank.
pub open spec fn settlement(v: JsonModel, from: int) -> Option<Seq<char>>
    decreases 7 - from,
{
    if from < 0 || from >= 7 {
        None
    } else {
        match address_field(v, from) {
            Some(JsonModel::Text(t)) => if blank(t) {
                settlement(v, from + 1)
            } else {
                Some(t)
            },
            _ => settlement(v, from + 1),
        }
    }
}

/// What a reverse lookup comes to: the settlement of the address, or else the
/// place itself of the full name.
pub open spec fn reverse_answer(v: Option<JsonModel>) -> Result<Option<Seq<char>>, GeocodeError> {
    match v {
        Some(o) => if !is_record(o, 0, 2) || !name_ok(o) || !address_ok(o) {
            Err(GeocodeError::Malformed)
        } else {
            match address_settlement(o) {
                Some(s) => Ok(Some(s)),
                None => Ok(place_name(full_name(o))),
            }
        },
        None => Err(GeocodeError::Malformed),
    }
}

pub open spec fn name_ok(o: JsonModel) -> bool {
    match field_of(o, "display_name"@, 1) {
        Some(n) => n is Text,
        None => true,
    }
}

pub open spec fn full_name(o: JsonModel) -> Seq<char> {
    match field_of(o, "display_name"@, 1) {
        Some(JsonModel::Text(t)) => t,
        _ => Seq::empty(),
    }
}

pub open spec fn address_ok(o: JsonModel) -> bool {
    match field_of(o, "address"@, 0) {
        Some(a) => is_address(a),
        None => true,
    }
}

pub open spec fn address_settlement(o: JsonModel) -> Option<Seq<char>> {
    match field_of(o, "address"@, 0) {
        Some(a) => settlement(a, 0),
        None => None,
    }
}

fn settlement_field(i: usize) -> (s: &'static str)
    requires
        i < 7,
    ensures
        s@ == settlement_fields()[i as int],
{
    match i {
        0 => "hamlet",
        1 => "village",
        2 => "town",
        3 => "municipality",
        4 => "city",
        5 => "suburb",
        _ => "county",
    }
}

fn settlement_place(i: usize) -> (p: usize)
    requires
        i < 7,
    ensures
        p == settlement_places()[i as int],
{
    match i {
        0 => 3,
        1 => 2,
        2 => 1,
        3 => 5,
        4 => 0,
        5 => 4,
        _ => 6,
    }
}

/// The settlement of an address; an error where it is no address.
fn read_address(v: &Value) -> (r: Result<Option<String>, GeocodeError>)
    ensures
        match r {
            Ok(s) => is_address(json(*v)) && text_model(s) == settlement(json(*v), 0),
            Err(e) => !is_address(json(*v)) && e == GeocodeError::Malformed,
        },
{
    if !has_record_shape(v, 0, 7) {
        return Err(GeocodeError::Malformed);
    }
    let ghost m = json(*v);
    let mut name: Option<String> = None;
    let mut i: usize = 7;
    while i > 0
        invariant
            i <= 7,
            m == json(*v),
            is_record(m, 0, 7),
            forall|k: int| i <= k < 7 ==> is_field(#[trigger] address_field(m, k)),
            text_model(name) == settlement(m, i as int),
        decreases i,
    {
        i = i - 1;
        match get_field(v, settlement_field(i), settlement_place(i)) {
            Some(f) => match as_str(f) {
                Some(s) => {
                    if !is_blank(s) {
                        name = Some(s.to_string());
                    }
                },
                None => {
                    if !is_null(f) {
                        assert(!is_field(address_field(m, i as int)));
                        return Err(GeocodeError::Malformed);
                    }
                },
            },
            None => {},
        }
    }
    Ok(name)
}

/// Read the answer to a reverse lookup: the name to show at a point, none
/// where there is nothing to name.
pub fn parse_reverse(body: &str) -> (r: Result<Option<String>, GeocodeError>)
    ensures
        match r {
            Ok(s) => reverse_answer(json_of_text(body@)) == Ok::<_, GeocodeError>(text_model(s)),
            Err(e) => reverse_answer(json_of_text(body@)) == Err::<Option<Seq<char>>, _>(e),
        },
{
    let v = match parse_text(body) {
        Some(v) => v,
        None => {
            return Err(GeocodeError::Malformed);
        },
    };
    if !has_record_shape(&v, 0, 2) {
        return Err(GeocodeError::Malformed);
    }
    let full: String = match get_field(&v, "display_name", 1) {
        Some(n) => match as_str(n) {
            Some(s) => s.to_string(),
            None => {
                return Err(GeocodeError::Malformed);
            },
        },
        None => String::new(),
    };
    let name = match get_field(&v, "address", 0) {
        Some(a) => match read_address(a) {
            Ok(s) => s,
            Err(e) => {
                return Err(e);
            },
        },
        None => None,
    };
    match name {
        Some(s) => Ok(Some(s)),
        None => Ok(head_of_name(full.as_str())),
    }
}

/// The last place at or before `from` where `/search` stands.
pub open spec fn last_search(s: Seq<char>, from: int) -> Option<int>
    decreases from + 1,
{
    if from < 0 {
        None
    } else if stands_at(s, "/search"@, from) {
        Some(from)
    } else {
        last_search(s, from - 1)
    }
}

/// The address for reverse lookups: the one for searches with its last
/// `/search` replaced, where it has one.
pub open spec fn reverse_address(endpoint: Seq<char>) -> Seq<char> {
    match last_search(endpoint, endpoint.len() as int) {
        Some(i) => endpoint.take(i) + "/reverse"@ + endpoint.skip(i + 7),
        None => endpoint,
    }
}

pub fn reverse_endpoint(endpoint: &str) -> (s: String)
    ensures
        s@ == reverse_address(endpoint@),
{
    let cs = chars_of(endpoint);
    let needle = chars_of("/search");
    proof {
        reveal_strlit("/search");
    }
    let mut i: usize = cs.len();
    loop
        invariant
            i <= cs.len(),
            cs@ == endpoint@,
            needle@ == "/search"@,
            needle.len() == 7,
            last_search(cs@, cs.len() as int) == last_search(cs@, i as int),
        decreases i,
    {
        if cs.len() - i >= 7 && matches_at(cs.as_slice(), needle.as_slice(), i) {
            let mut a: Vec<char> = Vec::new();
            let mut b: Vec<char> = Vec::new();
            let mut k: usize = 0;
            while k < i
                invariant
                    k <= i <= cs.len(),
                    a@ == cs@.take(k as int),
                decreases i - k,
            {
                assert(cs@.take(k + 1) =~= cs@.take(k as int).push(cs@[k as int]));
                a.push(cs[k]);
                k = k + 1;
            }
            let mut j: usize = i + 7;
            while j < cs.len()
                invariant
                    i + 7 <= j <= cs.len(),
                    b@ == cs@.subrange(i + 7, j as int),
                decreases cs.len() - j,
            {
                assert(cs@.subrange(i + 7, j + 1) =~= cs@.subrange(i + 7, j as int).push(
                    cs@[j as int],
                ));
                b.push(cs[j]);
                j = j + 1;
            }
            assert(b@ =~= cs@.skip(i + 7));
            return text_of(a.as_slice()).concat("/reverse").concat(
                text_of(b.as_slice()).as_str(),
            );
        }
        if i == 0 {
            return endpoint.to_string();
        }
        i = i - 1;
    }
}

pub open spec fn pairs(q: Seq<(String, String)>) -> Seq<(Seq<char>, Seq<char>)> {
    q.map_values(|p: (String, String)| (p.0@, p.1@))
}

/// What a search asks the service: for the one best result, none where nothing
/// is searched for.
pub open spec fn search_parameters(query: Seq<char>) -> Option<Seq<(Seq<char>, Seq<char>)>> {
    if blank(query) {
        None
    } else {
        Some(
            seq![
                ("q"@, trimmed(query)),
                ("format"@, "jsonv2"@),
                ("limit"@, "1"@),
                ("addressdetails"@, "0"@),
            ],
        )
    }
}

fn pair(name: &str, value: &str) -> (p: (String, String))
    ensures
        p.0@ == name@,
        p.1@ == value@,
{
    (name.to_string(), value.to_string())
}

pub fn search_query(query: &str) -> (r: Option<Vec<(String, String)>>)
    ensures
        match r {
            Some(q) => search_parameters(query@) == Some(pairs(q@)),
            None => search_parameters(query@) is None,
        },
{
    if is_blank(query) {
        return None;
    }
    let text = trim(query);
    let q = vec![
        pair("q", text.as_str()),
        pair("format", "jsonv2"),
        pair("limit", "1"),
        pair("addressdetails", "0"),
    ];
    assert(pairs(q@) =~= search_parameters(query@)->0);
    Some(q)
}

/// What a reverse lookup asks the service: for the settlement at a point, whose
/// coordinates are written as `lat` and `lon`.
pub open spec fn reverse_parameters(lat: Seq<char>, lon: Seq<char>) -> Seq<(Seq<char>, Seq<char>)> {
    seq![
        ("lat"@, lat),
        ("lon"@, lon),
        ("format"@, "jsonv2"@),
        ("zoom"@, "13"@),
        ("addressdetails"@, "1"@),
    ]
}

pub fn reverse_query(lat: &str, lon: &str) -> (q: Vec<(String, String)>)
    ensures
        pairs(q@) == reverse_parameters(lat@, lon@),
{
    let q = vec![
        pair("lat", lat),
        pair("lon", lon),
        pair("format", "jsonv2"),
        pair("zoom", "13"),
        pair("addressdetails", "1"),
    ];
    assert(pairs(q@) =~= reverse_parameters(lat@, lon@));
    q
}

/// The service is asked once a second at most.
pub const MIN_REQUEST_INTERVAL: u64 = 1_000_000_000;

/// How long a request at `now` has to wait after the one at `last`.
pub open spec fn throttle_wait(last: Option<u64>, now: u64) -> int {
    match last {
        Some(t) => if crate::tasks::since(t, now) < MIN_REQUEST_INTERVAL {
            MIN_REQUEST_INTERVAL - crate::tasks::since(t, now)
        } else {
            0
        },
        None => 0,
    }
}

pub fn throttle(last: Option<u64>, now: u64) -> (wait: u64)
    ensures
        wait == throttle_wait(last, now),
{
    match last {
        Some(t) => {
            let gone: u64 = crate::tasks::elapsed(t, now);
            if gone < MIN_REQUEST_INTERVAL {
                MIN_REQUEST_INTERVAL - gone
            } else {
                0
            }
        },
        None => 0,
    }
}

/// Two requests are never less than a second apart.
pub proof fn requests_are_spaced(last: u64, now: u64)
    requires
        last <= now,
    ensures
        now + throttle_wait(Some(last), now) - last >= MIN_REQUEST_INTERVAL,
{
}

/// A search finds the first result, where its texts say: the latitude under
/// `lat`, the longitude under `lon` and the name under `display_name`.
pub proof fn searches_find_the_first_result(
    items: Seq<JsonModel>,
    y: Seq<char>,
    x: Seq<char>,
    name: Seq<char>,
    lat: Double,
    lon: Double,
)
    requires
        items.len() > 0,
        forall|i: int|
            0 <= i < items.len() ==> (#[trigger] items[i]) is Object && (items[i].at("lat"@) matches
                Some(JsonModel::Text(_))) && (items[i].at("lon"@) matches Some(JsonModel::Text(_)))
                && (items[i].at("display_name"@) matches Some(JsonModel::Text(_))),
        items[0].at("lat"@) == Some(JsonModel::Text(y)),
        items[0].at("lon"@) == Some(JsonModel::Text(x)),
        items[0].at("display_name"@) == Some(JsonModel::Text(name)),
        decimal(y) == Some(lat),
        decimal(x) == Some(lon),
    ensures
        (Double { bits: MIN_LAT_BITS }).at_most(lat) && lat.at_most(
            (Double { bits: MAX_LAT_BITS }),
        ) && (Double { bits: MIN_LON_BITS }).at_most(lon) && lon.at_most(
            (Double { bits: MAX_LON_BITS }),
        ) && on_globe(lat, lon) ==> answer(Some(JsonModel::Array(items))) == Ok::<_, GeocodeError>(
            Some((GeoPoint { lon, lat }, name)),
        ),
        !on_globe(lat, lon) ==> answer(Some(JsonModel::Array(items))) == Err::<
            Option<(GeoPoint, Seq<char>)>,
            _,
        >(GeocodeError::OutOfRange),
{
    assert(all_places(items));
}

/// Whether an address has a field with something in it.
pub open spec fn is_filled(address: JsonModel, name: Seq<char>) -> bool {
    address.at(name) matches Some(JsonModel::Text(t)) && !blank(t)
}

/// The name shown for a position is the smallest settlement of its address: a
/// hamlet before a village, a town, a municipality and a city, then a quarter of
/// a city and the county; where none of them is filled, it is the place itself of
/// the full name.
pub proof fn the_smallest_settlement_is_named(
    v: JsonModel,
    address: JsonModel,
    name: Seq<char>,
)
    requires
        v is Object,
        v.at("address"@) == Some(address),
        v.at("display_name"@) == Some(JsonModel::Text(name)),
        is_address(address),
        address is Object,
    ensures
        ({
            let hamlet = is_filled(address, "hamlet"@);
            let village = is_filled(address, "village"@);
            let town = is_filled(address, "town"@);
            let municipality = is_filled(address, "municipality"@);
            let city = is_filled(address, "city"@);
            let suburb = is_filled(address, "suburb"@);
            let county = is_filled(address, "county"@);
            reverse_answer(Some(v)) == Ok::<_, GeocodeError>(
                if hamlet {
                    text_at(address.at("hamlet"@))
                } else if village {
                    text_at(address.at("village"@))
                } else if town {
                    text_at(address.at("town"@))
                } else if municipality {
                    text_at(address.at("municipality"@))
                } else if city {
                    text_at(address.at("city"@))
                } else if suburb {
                    text_at(address.at("suburb"@))
                } else if county {
                    text_at(address.at("county"@))
                } else {
                    place_name(name)
                },
            )
        }),
{
    reveal_with_fuel(settlement, 8);
}

/// An address that is a list names its fields by place: city, town, village,
/// hamlet, suburb, municipality and county.
pub proof fn addresses_can_be_lists(o: JsonModel, items: Seq<JsonModel>)
    requires
        o is Object,
        items.len() == 7,
        o.at("city"@) == Some(items[0]),
        o.at("town"@) == Some(items[1]),
        o.at("village"@) == Some(items[2]),
        o.at("hamlet"@) == Some(items[3]),
        o.at("suburb"@) == Some(items[4]),
        o.at("municipality"@) == Some(items[5]),
        o.at("county"@) == Some(items[6]),
    ensures
        settlement(JsonModel::Array(items), 0) == settlement(o, 0),
{
    reveal_with_fuel(settlement, 8);
}

/// The place itself of a full name is what stands before its first comma.
pub proof fn the_place_stands_before_the_comma(head: Seq<char>, tail: Seq<char>)
    requires
        head.len() > 0,
        !white(head[0]),
        !white(head.last()),
        forall|i: int| 0 <= i < head.len() ==> #[trigger] head[i] != ',',
    ensures
        place_name(head + seq![','] + tail) == Some(head),
        place_name(head) == Some(head),
{
    let name = head + seq![','] + tail;
    lemma_first_comma(name, head.len() as int, 0);
    lemma_no_comma(head, 0);
    assert(name.take(head.len() as int) =~= head);
}

proof fn lemma_first_comma(s: Seq<char>, n: int, from: int)
    requires
        0 <= from <= n < s.len(),
        s[n] == ',',
        forall|i: int| 0 <= i < n ==> #[trigger] s[i] != ',',
    ensures
        first_at(s, ',', from) == Some(n),
    decreases n - from,
{
    if from < n {
        lemma_first_comma(s, n, from + 1);
    }
}

proof fn lemma_no_comma(s: Seq<char>, from: int)
    requires
        0 <= from,
        forall|i: int| 0 <= i < s.len() ==> #[trigger] s[i] != ',',
    ensures
        first_at(s, ',', from) is None,
    decreases s.len() - from,
{
    if from < s.len() {
        lemma_no_comma(s, from + 1);
    }
}

/// A reverse lookup sends the latitude as `lat` and the longitude as `lon`, and
/// nothing else under these names.
pub proof fn reverse_lookups_name_their_coordinates(lat: Seq<char>, lon: Seq<char>)
    ensures
        reverse_parameters(lat, lon).contains(("lat"@, lat)),
        reverse_parameters(lat, lon).contains(("lon"@, lon)),
        forall|i: int|
            0 <= i < reverse_parameters(lat, lon).len() ==> {
                let p = #[trigger] reverse_parameters(lat, lon)[i];
                (p.0 == "lat"@ ==> p.1 == lat) && (p.0 == "lon"@ ==> p.1 == lon)
            },
{
    reveal_strlit("lat");
    reveal_strlit("lon");
    reveal_strlit("format");
    reveal_strlit("zoom");
    reveal_strlit("addressdetails");
    let p = reverse_parameters(lat, lon);
    assert(p[0] == ("lat"@, lat));
    assert(p[1] == ("lon"@, lon));
    assert("lat"@[1] == 'a' && "lon"@[1] == 'o');
    assert("lat"@.len() == 3 && "lon"@.len() == 3);
    assert("format"@.len() == 6 && "zoom"@.len() == 4 && "addressdetails"@.len() == 14);
}

/// A search sends what was typed, without the white space around it, and asks for
/// one result; a blank one is not sent.
pub proof fn searches_send_what_was_typed(query: Seq<char>)
    ensures
        blank(query) <==> search_parameters(query) is None,
        search_parameters(query) matches Some(p) ==> p.contains(("q"@, trimmed(query)))
            && p.contains(("limit"@, "1"@)),
{
    if !blank(query) {
        let p = search_parameters(query)->0;
        assert(p[0] == ("q"@, trimmed(query)));
        assert(p[2] == ("limit"@, "1"@));
    }
}

/// The address for reverse lookups is the one for searches with `/reverse` for
/// its last `/search`.
pub proof fn reverse_lookups_have_an_address(head: Seq<char>, tail: Seq<char>)
    requires
        forall|i: int| i > head.len() ==> !(#[trigger] stands_at(
            head + "/search"@ + tail,
            "/search"@,
            i,
        )),
    ensures
        reverse_address(head + "/search"@ + tail) == head + "/reverse"@ + tail,
{
    reveal_strlit("/search");
    let s = head + "/search"@ + tail;
    let n = head.len() as int;
    assert(s.subrange(n, n + 7) =~= "/search"@);
    assert(stands_at(s, "/search"@, n));
    lemma_last_search(s, n, s.len() as int);
    assert(s.take(n) =~= head);
    assert(s.skip(n + 7) =~= tail);
}

proof fn lemma_last_search(s: Seq<char>, n: int, from: int)
    requires
        0 <= n <= from,
        stands_at(s, "/search"@, n),
        forall|i: int| i > n ==> !(#[trigger] stands_at(s, "/search"@, i)),
    ensures
        last_search(s, from) == Some(n),
    decreases from,
{
    if from > n {
        assert(!stands_at(s, "/search"@, from));
        lemma_last_search(s, n, from - 1);
    }
}

/// How the program names itself to the service.
pub const USER_AGENT: &'static str =
    "front/0.1.0 (terminal weather radar; +https://github.com/MysteriousWolf/front)";

} // verus!
