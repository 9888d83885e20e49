//! Weather stations as the gateway reports them.

use serde_json::Value;
use vstd::prelude::*;
use vstd::string::*;

use crate::calendar::{format_utc, on_calendar, written, TO_THE_SECOND};
use crate::double::Double;
use crate::features::ObservationPoint;
use crate::geo::{GeoPoint, WorldPoint, MAX_LAT_BITS, MAX_LON_BITS, MIN_LAT_BITS, MIN_LON_BITS};
use crate::json::{
    as_number, as_str, at, get, get_in, items_in, items_of, json, json_of_text, jsons, lent,
    members, members_of, parse_text, text_at, text_in, JsonModel,
};
use crate::meteoalarm::{number_or_zero, read_number};
use crate::text::{
    before, blank, chars_of, contains_text, first_at, has_part, is_blank, is_white, part_before, same_text,
    text_of, white,
};

verus! {

/// A station's identity, name and place.
#[derive(Debug, PartialEq, Eq)]
pub struct StationInfo {
    pub wigos_id: String,
    pub name: String,
    pub lon: Double,
    pub lat: Double,
}

/// What a station's record holds.
#[verifier::ext_equal]
pub struct StationModel {
    pub wigos_id: Seq<char>,
    pub name: Seq<char>,
    pub lon: Double,
    pub lat: Double,
}

impl View for StationInfo {
    type V = StationModel;

    open spec fn view(&self) -> StationModel {
        StationModel {
            wigos_id: self.wigos_id@,
            name: self.name@,
            lon: self.lon,
            lat: self.lat,
        }
    }
}

/// Whether a character is lowercase.
pub uninterp spec fn lowercase(c: char) -> bool;

/// The uppercase form of a character, which may be several.
pub uninterp spec fn uppercase_of(c: char) -> Seq<char>;

/// The lowercase form of a text.
pub uninterp spec fn lowercase_of(s: Seq<char>) -> Seq<char>;

/// `char::is_lowercase` tells whether a character is lowercase.
pub assume_specification[ char::is_lowercase ](c: char) -> (r: bool)
    ensures
        r == lowercase(c),
;

/// `char::to_uppercase` gives the uppercase form of a character.
#[verifier::external_body]
fn to_uppercase(c: char) -> (s: String)
    ensures
        s@ == uppercase_of(c),
{
    c.to_uppercase().to_string()
}

/// `str::to_lowercase` gives the lowercase form of a text.
pub assume_specification[ str::to_lowercase ](s: &str) -> (r: String)
    ensures
        r@ == lowercase_of(s@),
;

/// The text with spaces for underscores.
pub open spec fn spaced(s: Seq<char>) -> Seq<char> {
    s.map_values(
        |c: char|
            if c == '_' {
                ' '
            } else {
                c
            },
    )
}

/// The words of a text.
pub open spec fn words(s: Seq<char>) -> Seq<Seq<char>>
    decreases s.len(),
{
    if s.len() == 0 {
        Seq::empty()
    } else if white(s.last()) {
        words(s.drop_last())
    } else if s.len() == 1 || white(s[s.len() - 2]) {
        words(s.drop_last()).push(seq![s.last()])
    } else {
        let w = words(s.drop_last());
        w.drop_last().push(w.last().push(s.last()))
    }
}

/// A word with its first letter large and the others small.
pub open spec fn titled(word: Seq<char>) -> Seq<char> {
    if word.len() == 0 {
        word
    } else {
        uppercase_of(word[0]) + lowercase_of(word.drop_first())
    }
}

/// The first `n` words, each titled, with a space between them.
pub open spec fn titled_words(ws: Seq<Seq<char>>, n: nat) -> Seq<char>
    decreases n,
{
    if n == 0 || n > ws.len() {
        Seq::empty()
    } else if n == 1 {
        titled(ws[0])
    } else {
        titled_words(ws, (n - 1) as nat) + " "@ + titled(ws[n - 1])
    }
}

/// A station's name for display: spaces for underscores, and a name without a
/// small letter in title case.
pub open spec fn display_name(name: Seq<char>) -> Seq<char> {
    let s = spaced(name);
    if exists|i: int| 0 <= i < s.len() && lowercase(#[trigger] s[i]) {
        s
    } else {
        titled_words(words(s), words(s).len())
    }
}

fn split_words(cs: &Vec<char>) -> (r: Vec<Vec<char>>)
    ensures
        r@.map_values(|w: Vec<char>| w@) == words(cs@),
        forall|i: int| 0 <= i < r.len() ==> (#[trigger] r[i]).len() > 0,
{
    let ghost view = |w: Vec<char>| w@;
    let mut done: Vec<Vec<char>> = Vec::new();
    let mut part: Vec<char> = Vec::new();
    let mut i: usize = 0;
    assert(cs@.take(0) =~= Seq::<char>::empty());
    assert(done@.map_values(view) =~= Seq::<Seq<char>>::empty());
    while i < cs.len()
        invariant
            i <= cs.len(),
            view == (|w: Vec<char>| w@),
            forall|k: int| 0 <= k < done.len() ==> (#[trigger] done[k]).len() > 0,
            part.len() == 0 <==> i == 0 || white(cs@[i - 1]),
            words(cs@.take(i as int)) == if part.len() == 0 {
                done@.map_values(view)
            } else {
                done@.map_values(view).push(part@)
            },
        decreases cs.len() - i,
    {
        let ghost t = cs@.take(i + 1);
        assert(t.drop_last() =~= cs@.take(i as int));
        assert(t.last() == cs@[i as int]);
        let ghost done0 = done@;
        let ghost part0 = part@;
        if is_white(cs[i]) {
            if part.len() > 0 {
                done.push(part);
                part = Vec::new();
                assert(done@.map_values(view) =~= done0.map_values(view).push(part0));
            }
        } else {
            part.push(cs[i]);
            proof {
                let all = words(cs@.take(i as int));
                if i > 0 {
                    assert(t[t.len() - 2] == cs@[i - 1]);
                }
                if part0.len() > 0 {
                    assert(all.drop_last() =~= done0.map_values(view));
                    assert(all.last() == part0);
                } else {
                    assert(part@ =~= seq![cs@[i as int]]);
                }
                assert(words(t) =~= done0.map_values(view).push(part@));
            }
        }
        i = i + 1;
    }
    assert(cs@.take(i as int) =~= cs@);
    if part.len() > 0 {
        let ghost done0 = done@;
        let ghost part0 = part@;
        done.push(part);
        assert(done@.map_values(view) =~= done0.map_values(view).push(part0));
    }
    done
}

fn title_word(word: &Vec<char>) -> (s: String)
    requires
        word.len() > 0,
    ensures
        s@ == titled(word@),
{
    let mut rest: Vec<char> = Vec::new();
    let mut i: usize = 1;
    while i < word.len()
        invariant
            1 <= i <= word.len(),
            rest@ == word@.subrange(1, i as int),
        decreases word.len() - i,
    {
        assert(word@.subrange(1, i + 1) =~= word@.subrange(1, i as int).push(word@[i as int]));
        rest.push(word[i]);
        i = i + 1;
    }
    assert(rest@ =~= word@.drop_first());
    let tail = text_of(rest.as_slice());
    to_uppercase(word[0]).concat(tail.as_str().to_lowercase().as_str())
}

/// Normalise a station's name for display.
pub fn normalize_station_name(name: &str) -> (s: String)
    ensures
        s@ == display_name(name@),
{
    let cs = chars_of(name);
    let mut out: Vec<char> = Vec::new();
    let mut any_lower = false;
    let mut i: usize = 0;
    while i < cs.len()
        invariant
            i <= cs.len(),
            out@ == spaced(cs@).take(i as int),
            any_lower == exists|k: int| 0 <= k < i && lowercase(#[trigger] spaced(cs@)[k]),
        decreases cs.len() - i,
    {
        let c = if cs[i] == '_' {
            ' '
        } else {
            cs[i]
        };
        assert(spaced(cs@)[i as int] == c);
        assert(spaced(cs@).take(i + 1) =~= spaced(cs@).take(i as int).push(c));
        if c.is_lowercase() {
            assert(lowercase(spaced(cs@)[i as int]));
            any_lower = true;
        }
        out.push(c);
        i = i + 1;
    }
    assert(out@ =~= spaced(name@));
    if any_lower {
        return text_of(out.as_slice());
    }
    let ws = split_words(&out);
    let ghost models = ws@.map_values(|w: Vec<char>| w@);
    let mut s = String::new();
    let mut k: usize = 0;
    assert(s@ =~= titled_words(models, 0));
    while k < ws.len()
        invariant
            k <= ws.len(),
            models == ws@.map_values(|w: Vec<char>| w@),
            forall|i: int| 0 <= i < ws.len() ==> (#[trigger] ws[i]).len() > 0,
            s@ == titled_words(models, k as nat),
        decreases ws.len() - k,
    {
        assert(models[k as int] == ws@[k as int]@);
        let t = title_word(&ws[k]);
        if k == 0 {
            s = t;
        } else {
            s = s.concat(" ").concat(t.as_str());
        }
        k = k + 1;
    }
    s
}

/// The values that a station reported, by the name of the quantity.
#[derive(Debug)]
pub struct Params {
    entries: Vec<(String, Double)>,
}

spec fn entry_of(entries: Seq<(String, Double)>, name: Seq<char>, from: int) -> Option<Double>
    decreases entries.len() - from,
{
    if from < 0 || from >= entries.len() {
        None
    } else if entries[from].0@ == name {
        Some(entries[from].1)
    } else {
        entry_of(entries, name, from + 1)
    }
}

impl Params {
    pub closed spec fn value(self, name: Seq<char>) -> Option<Double> {
        entry_of(self.entries@, name, 0)
    }

    pub fn new() -> (p: Params)
        ensures
            forall|name: Seq<char>| (#[trigger] p.value(name)) is None,
    {
        Params { entries: Vec::new() }
    }

    pub fn get(&self, name: &str) -> (r: Option<Double>)
        ensures
            r == self.value(name@),
    {
        let mut i: usize = 0;
        while i < self.entries.len()
            invariant
                i <= self.entries.len(),
                self.value(name@) == entry_of(self.entries@, name@, i as int),
            decreases self.entries.len() - i,
        {
            if same_text(self.entries[i].0.as_str(), name) {
                return Some(self.entries[i].1);
            }
            i = i + 1;
        }
        None
    }

    /// Set a value, in place of one that there is.
    pub fn insert(&mut self, name: String, v: Double)
        ensures
            forall|n: Seq<char>|
                (#[trigger] final(self).value(n)) == if n == name@ {
                    Some(v)
                } else {
                    old(self).value(n)
                },
    {
        let ghost before = self.entries@;
        let mut i: usize = 0;
        while i < self.entries.len()
            invariant
                i <= self.entries.len(),
                self.entries@ == before,
                before == old(self).entries@,
                entry_of(before, name@, 0) == entry_of(before, name@, i as int),
                forall|k: int| 0 <= k < i ==> (#[trigger] before[k]).0@ != name@,
            decreases self.entries.len() - i,
        {
            if same_text(self.entries[i].0.as_str(), name.as_str()) {
                let ghost at = i as int;
                self.entries.set(i, (name, v));
                proof {
                    let after = self.entries@;
                    assert forall|n: Seq<char>| entry_of(after, n, 0) == if n == name@ {
                        Some(v)
                    } else {
                        entry_of(before, n, 0)
                    } by {
                        lemma_replace(before, after, at, name@, v, n, 0);
                    }
                }
                return ;
            }
            i = i + 1;
        }
        self.entries.push((name, v));
        proof {
            let after = self.entries@;
            assert forall|n: Seq<char>| entry_of(after, n, 0) == if n == name@ {
                Some(v)
            } else {
                entry_of(before, n, 0)
            } by {
                lemma_push(before, after, name@, v, n, 0);
            }
        }
    }

    pub fn is_empty(&self) -> (r: bool)
        ensures
            r == forall|name: Seq<char>| (#[trigger] self.value(name)) is None,
    {
        if self.entries.len() > 0 {
            assert(self.value(self.entries@[0].0@) is Some);
            false
        } else {
            true
        }
    }
}

proof fn lemma_replace(
    before: Seq<(String, Double)>,
    after: Seq<(String, Double)>,
    at: int,
    name: Seq<char>,
    v: Double,
    n: Seq<char>,
    from: int,
)
    requires
        0 <= from <= before.len(),
        0 <= at < before.len(),
        after.len() == before.len(),
        before[at].0@ == name,
        after[at].0@ == name,
        after[at].1 == v,
        forall|k: int| 0 <= k < before.len() && k != at ==> #[trigger] after[k] == before[k],
        forall|k: int| 0 <= k < at ==> (#[trigger] before[k]).0@ != name,
    ensures
        n != name ==> entry_of(after, n, from) == entry_of(before, n, from),
        n == name && from <= at ==> entry_of(after, n, from) == Some(v),
    decreases before.len() - from,
{
    if from < before.len() {
        lemma_replace(before, after, at, name, v, n, from + 1);
        if from != at {
            assert(after[from] == before[from]);
        }
    }
}

proof fn lemma_push(
    before: Seq<(String, Double)>,
    after: Seq<(String, Double)>,
    name: Seq<char>,
    v: Double,
    n: Seq<char>,
    from: int,
)
    requires
        0 <= from <= before.len(),
        after.len() == before.len() + 1,
        after.last().0@ == name,
        after.last().1 == v,
        forall|k: int| 0 <= k < before.len() ==> #[trigger] after[k] == before[k],
        forall|k: int| 0 <= k < before.len() ==> (#[trigger] before[k]).0@ != name,
    ensures
        entry_of(after, n, from) == if n == name {
            Some(v)
        } else {
            entry_of(before, n, from)
        },
    decreases before.len() - from,
{
    if from < before.len() {
        lemma_push(before, after, name, v, n, from + 1);
        assert(after[from] == before[from]);
    } else {
        assert(after[from].0@ == name);
        assert(entry_of(after, n, from + 1) is None);
    }
}

/// The latest value of a range, where it is a number.
pub open spec fn latest(range: JsonModel) -> Option<Double> {
    match items_of(range.at("values"@)) {
        Some(values) => if values.len() == 0 {
            None
        } else {
            values.last().number()
        },
        None => None,
    }
}

/// The value of a quantity after the first `n` ranges. The first range of a
/// quantity counts; of the wind speeds a mean replaces what came before.
pub open spec fn param(ranges: Seq<(Seq<char>, JsonModel)>, n: nat, name: Seq<char>) -> Option<
    Double,
>
    decreases n,
{
    if n == 0 || n > ranges.len() {
        None
    } else {
        let earlier = param(ranges, (n - 1) as nat, name);
        let (key, range) = ranges[n - 1];
        match latest(range) {
            Some(v) => if name.len() > 0 && before(key, ':') == name && (earlier is None || (name
                == "wind_speed"@ && has_part(key, ":mean:"@))) {
                Some(v)
            } else {
                earlier
            },
            None => earlier,
        }
    }
}

fn read_latest(range: &Value) -> (r: Option<Double>)
    ensures
        r == latest(json(*range)),
{
    match items_in(get(range, "values")) {
        Some(values) => {
            if values.len() == 0 {
                return None;
            }
            assert(jsons(values@).last() == json(values@.last()));
            as_number(&values[values.len() - 1])
        },
        None => None,
    }
}

/// Read the values from the ranges of a coverage; none where they are no
/// object.
pub fn extract_param_values(ranges: &Value) -> (r: Option<Params>)
    ensures
        r is Some <==> json(*ranges) is Object,
        r matches Some(p) ==> forall|name: Seq<char>|
            (#[trigger] p.value(name)) == param(
                json(*ranges)->Object_0,
                json(*ranges)->Object_0.len(),
                name,
            ),
{
    let entries = match members(ranges) {
        Some(entries) => entries,
        None => {
            return None;
        },
    };
    let ghost models = members_of(entries@);
    let mut out = Params::new();
    let mut i: usize = 0;
    while i < entries.len()
        invariant
            i <= entries.len(),
            models == members_of(entries@),
            forall|name: Seq<char>|
                (#[trigger] out.value(name)) == param(models, i as nat, name),
        decreases entries.len() - i,
    {
        let (key, range) = entries[i];
        assert(models[i as int] == (key@, json(*range)));
        let ghost was = out;
        let head = part_before(key.as_str(), ':');
        let name = text_of(head.as_slice());
        if head.len() > 0 {
            if let Some(v) = read_latest(range) {
                let replaces = same_text(name.as_str(), "wind_speed") && contains_text(
                    key.as_str(),
                    ":mean:",
                );
                let known = out.get(name.as_str());
                if known.is_none() || replaces {
                    out.insert(name, v);
                }
            }
        }
        assert forall|n: Seq<char>| (#[trigger] out.value(n)) == param(
            models,
            (i + 1) as nat,
            n,
        ) by {
            assert(was.value(n) == param(models, i as nat, n));
        }
        i = i + 1;
    }
    Some(out)
}

/// A station in the answer to a query of an area.
#[derive(Debug)]
pub struct AreaStation {
    pub wigos_id: String,
    pub lon: Double,
    pub lat: Double,
    pub values: Params,
}

/// The first number on an axis of a coverage.
pub open spec fn axis(coverage: JsonModel, name: Seq<char>) -> Option<Double> {
    match items_of(at(at(at(coverage.at("domain"@), "axes"@), name), "values"@)) {
        Some(values) => if values.len() == 0 {
            None
        } else {
            values[0].number()
        },
        None => None,
    }
}

/// Whether a station is that of a coverage: its identity, its place and its
/// values are the coverage's, and it has a value.
pub open spec fn is_station_of(s: AreaStation, coverage: JsonModel) -> bool {
    &&& text_at(coverage.at("metocean:wigosId"@)) == Some(s.wigos_id@)
    &&& axis(coverage, "x"@) == Some(s.lon)
    &&& axis(coverage, "y"@) == Some(s.lat)
    &&& coverage.at("ranges"@) matches Some(JsonModel::Object(ranges)) && (forall|name: Seq<char>|
        (#[trigger] s.values.value(name)) == param(ranges, ranges.len(), name)) && has_values(
        ranges,
    )
}

/// Whether ranges give a value.
pub open spec fn has_values(ranges: Seq<(Seq<char>, JsonModel)>) -> bool {
    exists|name: Seq<char>| (#[trigger] param(ranges, ranges.len(), name)) is Some
}

/// Whether a coverage gives a station.
pub open spec fn gives_station(coverage: JsonModel) -> bool {
    &&& text_at(coverage.at("metocean:wigosId"@)) is Some
    &&& axis(coverage, "x"@) is Some
    &&& axis(coverage, "y"@) is Some
    &&& coverage.at("ranges"@) matches Some(JsonModel::Object(ranges)) && has_values(ranges)
}

/// Whether stations are those of the first `n` coverages, in their order.
pub open spec fn are_stations_of(stations: Seq<AreaStation>, coverages: Seq<JsonModel>, n: nat) -> bool
    decreases n,
{
    if n == 0 || n > coverages.len() {
        stations.len() == 0
    } else if gives_station(coverages[n - 1]) {
        stations.len() > 0 && is_station_of(stations.last(), coverages[n - 1]) && are_stations_of(
            stations.drop_last(),
            coverages,
            (n - 1) as nat,
        )
    } else {
        are_stations_of(stations, coverages, (n - 1) as nat)
    }
}

/// The coverages of an answer.
pub open spec fn coverages_of(v: JsonModel) -> Seq<JsonModel> {
    match items_of(v.at("coverages"@)) {
        Some(c) => c,
        None => Seq::empty(),
    }
}

fn read_axis(coverage: &Value, name: &str) -> (r: Option<Double>)
    ensures
        r == axis(json(*coverage), name@),
{
    let axes = get_in(get(coverage, "domain"), "axes");
    match items_in(get_in(get_in(axes, name), "values")) {
        Some(values) => {
            if values.len() == 0 {
                return None;
            }
            assert(jsons(values@)[0] == json(values@[0]));
            as_number(&values[0])
        },
        None => None,
    }
}

fn read_coverage(coverage: &Value) -> (r: Option<AreaStation>)
    ensures
        r is Some <==> gives_station(json(*coverage)),
        r matches Some(s) ==> is_station_of(s, json(*coverage)),
{
    let id = match text_in(get(coverage, "metocean:wigosId")) {
        Some(id) => id.to_string(),
        None => {
            return None;
        },
    };
    match (read_axis(coverage, "x"), read_axis(coverage, "y")) {
        (Some(lon), Some(lat)) => {
            let ranges = match get(coverage, "ranges") {
                Some(r) => r,
                None => {
                    return None;
                },
            };
            match extract_param_values(ranges) {
                Some(values) => {
                    let ghost m = json(*ranges)->Object_0;
                    if values.is_empty() {
                        assert forall|name: Seq<char>| (#[trigger] param(
                            m,
                            m.len(),
                            name,
                        )) is None by {
                            assert(values.value(name) is None);
                        }
                        None
                    } else {
                        assert(has_values(m)) by {
                            let name = choose|name: Seq<char>|
                                (#[trigger] values.value(name)) is Some;
                            assert(param(m, m.len(), name) is Some);
                        }
                        Some(AreaStation { wigos_id: id, lon, lat, values })
                    }
                },
                None => None,
            }
        },
        _ => None,
    }
}

/// Read the stations from the answer to a query of an area.
pub fn parse_area_values(data: &Value) -> (r: Vec<AreaStation>)
    ensures
        are_stations_of(r@, coverages_of(json(*data)), coverages_of(json(*data)).len()),
{
    let mut out: Vec<AreaStation> = Vec::new();
    match items_in(get(data, "coverages")) {
        Some(coverages) => {
            let ghost models = jsons(coverages@);
            let mut i: usize = 0;
            while i < coverages.len()
                invariant
                    i <= coverages.len(),
                    models == jsons(coverages@),
                    are_stations_of(out@, models, i as nat),
                decreases coverages.len() - i,
            {
                assert(models[i as int] == json(coverages@[i as int]));
                let ghost before = out@;
                match read_coverage(&coverages[i]) {
                    Some(s) => {
                        out.push(s);
                        assert(out@.drop_last() =~= before);
                    },
                    None => {},
                }
                i = i + 1;
            }
        },
        None => {},
    }
    out
}

/// How a query of an area ended.
#[derive(Debug)]
pub enum AreaFetch {
    Stations(Vec<AreaStation>),
    /// Nothing of use came back.
    Empty,
    /// The gateway refused; it may say for how many seconds.
    RateLimited(Option<u64>),
    /// The query was not sent: the budget is spent.
    OverBudget,
}

/// Read the gateway's answer: its status, how many seconds it asks to wait,
/// and its body.
pub fn area_response(status: u16, reset: Option<u64>, text: &str) -> (r: AreaFetch)
    ensures
        status == 429 ==> r == AreaFetch::RateLimited(reset),
        status != 429 && !(200 <= status < 300) ==> r is Empty,
        200 <= status < 300 ==> match json_of_text(text@) {
            Some(v) => r matches AreaFetch::Stations(s) && are_stations_of(
                s@,
                coverages_of(v),
                coverages_of(v).len(),
            ),
            None => r is Empty,
        },
{
    if status == 429 {
        return AreaFetch::RateLimited(reset);
    }
    if !(200 <= status && status < 300) {
        return AreaFetch::Empty;
    }
    match parse_text(text) {
        Some(v) => AreaFetch::Stations(parse_area_values(&v)),
        None => AreaFetch::Empty,
    }
}

/// The identity of a feature: its own, or that of its platform.
pub open spec fn feature_id(feature: JsonModel) -> Option<Seq<char>> {
    match text_at(feature.at("id"@)) {
        Some(id) => Some(id),
        None => text_at(at(feature.at("properties"@), "platform"@)),
    }
}

/// The member of a feature's properties that names it: the first of three that
/// is there.
pub open spec fn name_member(feature: JsonModel) -> Option<JsonModel> {
    let props = feature.at("properties"@);
    match (at(props, "name"@), at(props, "title"@), at(props, "platform_name"@)) {
        (Some(n), _, _) => Some(n),
        (None, Some(n), _) => Some(n),
        (None, None, n) => n,
    }
}

/// The station of a feature, none where it has no identity or is no point.
pub open spec fn station_of(feature: JsonModel) -> Option<StationModel> {
    let geometry = feature.at("geometry"@);
    match (feature_id(feature), items_of(at(geometry, "coordinates"@))) {
        (Some(id), Some(c)) => if text_at(at(geometry, "type"@)) == Some("Point"@) && c.len() >= 2 {
            let name = match text_at(name_member(feature)) {
                Some(n) => n,
                None => id,
            };
            Some(
                StationModel {
                    wigos_id: id,
                    name: display_name(name),
                    lon: number_or_zero(c[0]),
                    lat: number_or_zero(c[1]),
                },
            )
        } else {
            None
        },
        _ => None,
    }
}

/// The stations of the first `n` features.
pub open spec fn stations_in(features: Seq<JsonModel>, n: nat) -> Seq<StationModel>
    decreases n,
{
    if n == 0 || n > features.len() {
        Seq::empty()
    } else {
        let before = stations_in(features, (n - 1) as nat);
        match station_of(features[n - 1]) {
            Some(s) => before.push(s),
            None => before,
        }
    }
}

/// The stations that a text lists: none in a blank text; nothing where it is
/// no JSON or has no list of features.
pub open spec fn listed_stations(text: Seq<char>) -> Option<Seq<StationModel>> {
    if blank(text) {
        Some(Seq::empty())
    } else {
        match json_of_text(text) {
            Some(v) => match items_of(v.at("features"@)) {
                Some(f) => Some(stations_in(f, f.len())),
                None => None,
            },
            None => None,
        }
    }
}

fn read_station(feature: &Value) -> (r: Option<StationInfo>)
    ensures
        match r {
            Some(s) => station_of(json(*feature)) == Some(s@),
            None => station_of(json(*feature)) is None,
        },
{
    let props = get(feature, "properties");
    let id = match text_in(get(feature, "id")) {
        Some(id) => id,
        None => match text_in(get_in(props, "platform")) {
            Some(id) => id,
            None => {
                return None;
            },
        },
    };
    let named = match get_in(props, "name") {
        Some(n) => Some(n),
        None => match get_in(props, "title") {
            Some(n) => Some(n),
            None => get_in(props, "platform_name"),
        },
    };
    assert(lent(named) == name_member(json(*feature)));
    let name = match text_in(named) {
        Some(n) => n,
        None => id,
    };
    let geometry = get(feature, "geometry");
    match text_in(get_in(geometry, "type")) {
        Some(t) => {
            if !same_text(t, "Point") {
                return None;
            }
        },
        None => {
            return None;
        },
    }
    match items_in(get_in(geometry, "coordinates")) {
        Some(c) => {
            if c.len() < 2 {
                return None;
            }
            assert(jsons(c@)[0] == json(c@[0]));
            assert(jsons(c@)[1] == json(c@[1]));
            Some(
                StationInfo {
                    wigos_id: id.to_string(),
                    name: normalize_station_name(name),
                    lon: read_number(&c[0]),
                    lat: read_number(&c[1]),
                },
            )
        },
        None => None,
    }
}

pub open spec fn station_models(s: Seq<StationInfo>) -> Seq<StationModel> {
    s.map_values(|s: StationInfo| s@)
}

/// Read the list of stations.
pub fn parse_locations(text: &str) -> (r: Option<Vec<StationInfo>>)
    ensures
        match r {
            Some(s) => listed_stations(text@) == Some(station_models(s@)),
            None => listed_stations(text@) is None,
        },
{
    let mut out: Vec<StationInfo> = Vec::new();
    assert(station_models(out@) =~= Seq::<StationModel>::empty());
    if is_blank(text) {
        return Some(out);
    }
    let v = match parse_text(text) {
        Some(v) => v,
        None => {
            return None;
        },
    };
    let features = match items_in(get(&v, "features")) {
        Some(f) => f,
        None => {
            return None;
        },
    };
    let ghost models = jsons(features@);
    let mut i: usize = 0;
    while i < features.len()
        invariant
            i <= features.len(),
            models == jsons(features@),
            station_models(out@) == stations_in(models, i as nat),
        decreases features.len() - i,
    {
        assert(models[i as int] == json(features@[i as int]));
        match read_station(&features[i]) {
            Some(s) => {
                let ghost before = out@;
                out.push(s);
                assert(station_models(out@) =~= station_models(before).push(s@));
            },
            None => {},
        }
        i = i + 1;
    }
    Some(out)
}

/// The last name of an identity among the first `n` stations.
pub open spec fn known_name(stations: Seq<StationInfo>, id: Seq<char>, n: nat) -> Option<Seq<char>>
    decreases n,
{
    if n == 0 || n > stations.len() {
        None
    } else if stations[n - 1].wigos_id@ == id {
        Some(stations[n - 1].name@)
    } else {
        known_name(stations, id, (n - 1) as nat)
    }
}

/// The name to show for an identity: the known one, or the identity itself.
pub open spec fn name_for(stations: Seq<StationInfo>, id: Seq<char>) -> Seq<char> {
    match known_name(stations, id, stations.len()) {
        Some(n) => n,
        None => id,
    }
}

fn find_name(stations: &Vec<StationInfo>, id: &String) -> (s: String)
    ensures
        s@ == name_for(stations@, id@),
{
    let mut i: usize = stations.len();
    while i > 0
        invariant
            i <= stations.len(),
            known_name(stations@, id@, stations@.len()) == known_name(stations@, id@, i as nat),
        decreases i,
    {
        i = i - 1;
        if same_text(stations[i].wigos_id.as_str(), id.as_str()) {
            return stations[i].name.clone();
        }
    }
    id.clone()
}

/// Whether a report is that of a station, under the name to show and at
/// `world`.
pub open spec fn is_point_of(
    p: ObservationPoint,
    s: AreaStation,
    stations: Seq<StationInfo>,
    world: WorldPoint,
) -> bool {
    &&& p.station_id@ == name_for(stations, s.wigos_id@)
    &&& p.wigos_id@ == s.wigos_id@
    &&& p.point == GeoPoint::bounded(s.lon, s.lat)
    &&& p.world == world
    &&& p.temperature == s.values.value("air_temperature"@)
    &&& p.wind_speed == s.values.value("wind_speed"@)
    &&& p.wind_direction == s.values.value("wind_from_direction"@)
    &&& p.humidity == s.values.value("relative_humidity"@)
    &&& p.pressure == s.values.value("air_pressure_at_mean_sea_level"@)
}

/// A station as a report on the map.
pub fn station_to_point(s: AreaStation, stations: &Vec<StationInfo>, world: WorldPoint) -> (p:
    ObservationPoint)
    ensures
        is_point_of(p, s, stations@, world),
{
    ObservationPoint {
        station_id: find_name(stations, &s.wigos_id),
        point: GeoPoint::new(s.lon, s.lat),
        world,
        temperature: s.values.get("air_temperature"),
        wind_speed: s.values.get("wind_speed"),
        wind_direction: s.values.get("wind_from_direction"),
        humidity: s.values.get("relative_humidity"),
        pressure: s.values.get("air_pressure_at_mean_sea_level"),
        wigos_id: s.wigos_id,
    }
}

/// The identities that were seen.
#[derive(Debug)]
pub struct SeenIds {
    ids: Vec<String>,
}

impl SeenIds {
    pub closed spec fn has(self, id: Seq<char>) -> bool {
        exists|i: int| 0 <= i < self.ids.len() && (#[trigger] self.ids[i])@ == id
    }

    pub open spec fn set(self) -> Set<Seq<char>> {
        Set::new(|id: Seq<char>| self.has(id))
    }

    pub fn new() -> (s: SeenIds)
        ensures
            forall|id: Seq<char>| !(#[trigger] s.has(id)),
    {
        SeenIds { ids: Vec::new() }
    }
}

/// Whether a report is new: one without an identity always is.
pub fn admit_point(seen: &mut SeenIds, wigos_id: &str) -> (r: bool)
    ensures
        r == (wigos_id@.len() == 0 || !old(seen).has(wigos_id@)),
        forall|id: Seq<char>|
            (#[trigger] final(seen).has(id)) == (old(seen).has(id) || (id == wigos_id@
                && wigos_id@.len() > 0)),
{
    if chars_of(wigos_id).len() == 0 {
        return true;
    }
    let mut i: usize = 0;
    while i < seen.ids.len()
        invariant
            i <= seen.ids.len(),
            wigos_id@.len() > 0,
            *seen == *old(seen),
            forall|k: int| 0 <= k < i ==> (#[trigger] seen.ids[k])@ != wigos_id@,
        decreases seen.ids.len() - i,
    {
        if same_text(seen.ids[i].as_str(), wigos_id) {
            return false;
        }
        i = i + 1;
    }
    let ghost before = seen.ids@;
    seen.ids.push(wigos_id.to_string());
    assert forall|id: Seq<char>| (#[trigger] seen.has(id)) == (old(seen).has(id) || id
        == wigos_id@) by {
        let after = seen.ids@;
        if old(seen).has(id) {
            let k = choose|k: int| 0 <= k < before.len() && (#[trigger] before[k])@ == id;
            assert(after[k]@ == id);
        }
        if id == wigos_id@ {
            assert(after[before.len() as int]@ == id);
        }
        if seen.has(id) {
            let k = choose|k: int| 0 <= k < after.len() && (#[trigger] after[k])@ == id;
            if k < before.len() {
                assert(before[k]@ == id);
            }
        }
    }
    true
}

/// The identities seen after the first `n` reports.
pub open spec fn seen_after(points: Seq<ObservationPoint>, seen: Set<Seq<char>>, n: nat) -> Set<
    Seq<char>,
>
    decreases n,
{
    if n == 0 || n > points.len() {
        seen
    } else {
        let before = seen_after(points, seen, (n - 1) as nat);
        let id = points[n - 1].wigos_id@;
        if id.len() == 0 {
            before
        } else {
            before.insert(id)
        }
    }
}

/// Those of the first `n` reports that are new.
pub open spec fn new_points(points: Seq<ObservationPoint>, seen: Set<Seq<char>>, n: nat) -> Seq<
    ObservationPoint,
>
    decreases n,
{
    if n == 0 || n > points.len() {
        Seq::empty()
    } else {
        let before = new_points(points, seen, (n - 1) as nat);
        let id = points[n - 1].wigos_id@;
        if id.len() == 0 || !seen_after(points, seen, (n - 1) as nat).contains(id) {
            before.push(points[n - 1])
        } else {
            before
        }
    }
}

/// The reports that are new.
pub fn admit_points(points: &Vec<ObservationPoint>, seen: &mut SeenIds) -> (r: Vec<
    ObservationPoint,
>)
    ensures
        r@ == new_points(points@, old(seen).set(), points@.len()),
        final(seen).set() == seen_after(points@, old(seen).set(), points@.len()),
{
    let ghost start = seen.set();
    let mut out: Vec<ObservationPoint> = Vec::new();
    let mut i: usize = 0;
    while i < points.len()
        invariant
            i <= points.len(),
            seen.set() == seen_after(points@, start, i as nat),
            out@ == new_points(points@, start, i as nat),
        decreases points.len() - i,
    {
        let ghost was = *seen;
        let ghost id = points@[i as int].wigos_id@;
        assert(was.set().contains(id) == was.has(id));
        if admit_point(seen, points[i].wigos_id.as_str()) {
            out.push(points[i].duplicate());
        }
        assert(seen.set() =~= seen_after(points@, start, (i + 1) as nat)) by {
            assert forall|x: Seq<char>| #[trigger] seen.set().contains(x) == seen_after(
                points@,
                start,
                (i + 1) as nat,
            ).contains(x) by {
                assert(seen.has(x) == (was.has(x) || (x == id && id.len() > 0)));
                assert(was.set().contains(x) == was.has(x));
            }
        }
        i = i + 1;
    }
    out
}

/// Reports without an identity are never held to be the same.
pub proof fn points_without_identity_survive(
    points: Seq<ObservationPoint>,
    seen: Set<Seq<char>>,
    n: nat,
)
    requires
        n <= points.len(),
        forall|i: int| 0 <= i < points.len() ==> (#[trigger] points[i]).wigos_id@.len() == 0,
    ensures
        new_points(points, seen, n) == points.take(n as int),
    decreases n,
{
    if n > 0 {
        points_without_identity_survive(points, seen, (n - 1) as nat);
        assert(points[n - 1].wigos_id@.len() == 0);
        assert(points.take(n as int) =~= points.take(n - 1).push(points[n - 1]));
    } else {
        assert(points.take(0) =~= Seq::<ObservationPoint>::empty());
    }
}

/// No identity is shown twice.
pub proof fn identities_are_shown_once(
    points: Seq<ObservationPoint>,
    seen: Set<Seq<char>>,
    n: nat,
    i: int,
    j: int,
)
    requires
        n <= points.len(),
        0 <= i < j < new_points(points, seen, n).len(),
        new_points(points, seen, n)[i].wigos_id@.len() > 0,
    ensures
        new_points(points, seen, n)[i].wigos_id@ != new_points(points, seen, n)[j].wigos_id@,
    decreases n,
{
    let before = new_points(points, seen, (n - 1) as nat);
    if j < before.len() {
        identities_are_shown_once(points, seen, (n - 1) as nat, i, j);
    } else {
        lemma_shown_was_seen(points, seen, (n - 1) as nat, i);
    }
}

proof fn lemma_shown_was_seen(
    points: Seq<ObservationPoint>,
    seen: Set<Seq<char>>,
    n: nat,
    i: int,
)
    requires
        n <= points.len(),
        0 <= i < new_points(points, seen, n).len(),
        new_points(points, seen, n)[i].wigos_id@.len() > 0,
    ensures
        seen_after(points, seen, n).contains(new_points(points, seen, n)[i].wigos_id@),
    decreases n,
{
    let before = new_points(points, seen, (n - 1) as nat);
    if i < before.len() {
        lemma_shown_was_seen(points, seen, (n - 1) as nat, i);
    }
}

/// A box as the gateway takes it, from the texts of its edges.
pub open spec fn polygon(
    lon0: Seq<char>,
    lat0: Seq<char>,
    lon1: Seq<char>,
    lat1: Seq<char>,
) -> Seq<char> {
    "POLYGON(("@ + lon0 + " "@ + lat0 + ","@ + lon1 + " "@ + lat0 + ","@ + lon1 + " "@ + lat1
        + ","@ + lon0 + " "@ + lat1 + ","@ + lon0 + " "@ + lat0 + "))"@
}

pub fn polygon_text(lon0: &str, lat0: &str, lon1: &str, lat1: &str) -> (s: String)
    ensures
        s@ == polygon(lon0@, lat0@, lon1@, lat1@),
{
    "POLYGON((".to_string().concat(lon0).concat(" ").concat(lat0).concat(",").concat(lon1).concat(
        " ",
    ).concat(lat0).concat(",").concat(lon1).concat(" ").concat(lat1).concat(",").concat(
        lon0,
    ).concat(" ").concat(lat1).concat(",").concat(lon0).concat(" ").concat(lat0).concat("))")
}

/// The texts of a box's edges in degrees: west, south, east and north.
#[derive(Debug)]
pub struct BoxTexts {
    pub west: String,
    pub south: String,
    pub east: String,
    pub north: String,
}

/// The box to ask for: that of the view, or Europe.
pub fn bounds_polygon(bounds: Option<BoxTexts>) -> (s: String)
    ensures
        s@ == match bounds {
            Some(b) => polygon(b.west@, b.south@, b.east@, b.north@),
            None => "POLYGON((-30 30,45 30,45 72,-30 72,-30 30))"@,
        },
{
    match bounds {
        Some(b) => polygon_text(
            b.west.as_str(),
            b.south.as_str(),
            b.east.as_str(),
            b.north.as_str(),
        ),
        None => "POLYGON((-30 30,45 30,45 72,-30 72,-30 30))".to_string(),
    }
}

/// The address for queries of an area.
pub fn area_url(endpoint: &str, collection_id: &str) -> (s: String)
    ensures
        s@ == endpoint@ + "/collections/"@ + collection_id@ + "/area"@,
{
    endpoint.to_string().concat("/collections/").concat(collection_id).concat("/area")
}

/// The address of the list of stations.
pub fn locations_url(endpoint: &str, collection_id: &str) -> (s: String)
    ensures
        s@ == endpoint@ + "/collections/"@ + collection_id@ + "/locations"@,
{
    endpoint.to_string().concat("/collections/").concat(collection_id).concat("/locations")
}

/// The hour up to `now`, in seconds since the epoch, as the gateway takes it;
/// none where the calendar does not reach so far.
pub fn last_hour(now: i64) -> (r: Option<String>)
    requires
        now >= i64::MIN + 3600,
    ensures
        r is Some <==> on_calendar((now - 3600) as i64) && on_calendar(now),
        r matches Some(s) ==> s@ == written((now - 3600) as i64, TO_THE_SECOND@) + "/"@ + written(
            now,
            TO_THE_SECOND@,
        ),
{
    match (format_utc(now - 3600, TO_THE_SECOND), format_utc(now, TO_THE_SECOND)) {
        (Some(from), Some(to)) => Some(from.concat("/").concat(to.as_str())),
        _ => None,
    }
}

/// Whether a key of the gateway's ranges is of a quantity: its name, alone or
/// with a colon and more behind it.
pub open spec fn is_key_of(key: Seq<char>, name: Seq<char>) -> bool {
    key == name || (key.len() > name.len() && key.take(name.len() as int) == name
        && key[name.len() as int] == ':')
}

/// Whether a range gives a reading of a quantity: its latest value is a number.
pub open spec fn gives_reading(range: (Seq<char>, JsonModel), name: Seq<char>) -> bool {
    is_key_of(range.0, name) && (range.1.at("values"@) matches Some(JsonModel::Array(values))
        && values.len() > 0 && values.last() is Number)
}

/// Whether a range is the first that gives a reading of a quantity, and `bits`
/// the number with which its values end.
pub open spec fn is_first_reading(
    ranges: Seq<(Seq<char>, JsonModel)>,
    name: Seq<char>,
    i: int,
    bits: u64,
) -> bool {
    &&& 0 <= i < ranges.len()
    &&& gives_reading(ranges[i], name)
    &&& forall|j: int| 0 <= j < i ==> !gives_reading(#[trigger] ranges[j], name)
    &&& ranges[i].1.at("values"@) matches Some(JsonModel::Array(values)) && (
    values[values.len() - 1] matches JsonModel::Number(b, _) && b == bits)
}

/// Whether no range gives a reading of a quantity.
pub open spec fn is_not_read(ranges: Seq<(Seq<char>, JsonModel)>, name: Seq<char>) -> bool {
    forall|j: int| 0 <= j < ranges.len() ==> !gives_reading(#[trigger] ranges[j], name)
}

/// A report shows the readings of its coverage: under each quantity the latest
/// value of the range that is named after it, whatever the other ranges are, and
/// nothing where there is none.
pub proof fn reports_show_their_coverage(
    coverage: JsonModel,
    ranges: Seq<(Seq<char>, JsonModel)>,
    s: AreaStation,
    p: ObservationPoint,
    stations: Seq<StationInfo>,
    world: WorldPoint,
)
    requires
        coverage.at("ranges"@) == Some(JsonModel::Object(ranges)),
        is_station_of(s, coverage),
        is_point_of(p, s, stations, world),
    ensures
        forall|i: int, bits: u64| #[trigger]
            is_first_reading(ranges, "air_temperature"@, i, bits) ==> p.temperature == Some(
                (Double { bits }),
            ),
        forall|i: int, bits: u64| #[trigger]
            is_first_reading(ranges, "relative_humidity"@, i, bits) ==> p.humidity == Some(
                (Double { bits }),
            ),
        forall|i: int, bits: u64| #[trigger]
            is_first_reading(ranges, "wind_from_direction"@, i, bits) ==> p.wind_direction == Some(
                (Double { bits }),
            ),
        forall|i: int, bits: u64| #[trigger]
            is_first_reading(ranges, "air_pressure_at_mean_sea_level"@, i, bits) ==> p.pressure
                == Some((Double { bits })),
        forall|i: int, bits: u64| #[trigger]
            is_first_reading(ranges, "wind_speed"@, i, bits) && (forall|j: int|
                i < j < ranges.len() ==> !(gives_reading(#[trigger] ranges[j], "wind_speed"@)
                    && has_part(ranges[j].0, ":mean:"@))) ==> p.wind_speed == Some(
                (Double { bits }),
            ),
        is_not_read(ranges, "air_temperature"@) ==> p.temperature is None,
        is_not_read(ranges, "relative_humidity"@) ==> p.humidity is None,
        is_not_read(ranges, "wind_from_direction"@) ==> p.wind_direction is None,
        is_not_read(ranges, "air_pressure_at_mean_sea_level"@) ==> p.pressure is None,
        is_not_read(ranges, "wind_speed"@) ==> p.wind_speed is None,
{
    lemma_quantities();
    lemma_readings(ranges, "air_temperature"@);
    lemma_readings(ranges, "relative_humidity"@);
    lemma_readings(ranges, "wind_from_direction"@);
    lemma_readings(ranges, "air_pressure_at_mean_sea_level"@);
    lemma_readings(ranges, "wind_speed"@);
}

/// Of the wind speeds, the last mean is shown where there is one.
pub proof fn mean_wind_is_shown(
    coverage: JsonModel,
    ranges: Seq<(Seq<char>, JsonModel)>,
    s: AreaStation,
    p: ObservationPoint,
    stations: Seq<StationInfo>,
    world: WorldPoint,
    i: int,
)
    requires
        coverage.at("ranges"@) == Some(JsonModel::Object(ranges)),
        is_station_of(s, coverage),
        is_point_of(p, s, stations, world),
        0 <= i < ranges.len(),
        gives_reading(ranges[i], "wind_speed"@),
        has_part(ranges[i].0, ":mean:"@),
        forall|j: int|
            i < j < ranges.len() ==> !(gives_reading(#[trigger] ranges[j], "wind_speed"@)
                && has_part(ranges[j].0, ":mean:"@)),
    ensures
        ranges[i].1.at("values"@) matches Some(JsonModel::Array(values)) && (
        values[values.len() - 1] matches JsonModel::Number(b, _) && p.wind_speed == Some(
            (Double { bits: b }),
        )),
{
    lemma_quantities();
    lemma_last_mean(ranges, i, ranges.len());
}

/// A report stands where the first numbers of its coverage's axes say, `x` being
/// the longitude and `y` the latitude, and bears the coverage's identity.
pub proof fn reports_stand_where_their_coverage_says(
    coverage: JsonModel,
    axes: JsonModel,
    xs: Seq<JsonModel>,
    ys: Seq<JsonModel>,
    s: AreaStation,
    p: ObservationPoint,
    stations: Seq<StationInfo>,
    world: WorldPoint,
)
    requires
        is_station_of(s, coverage),
        is_point_of(p, s, stations, world),
        coverage.at("domain"@) matches Some(domain) && domain.at("axes"@) == Some(axes),
        axes.at("x"@) matches Some(axis) && axis.at("values"@) == Some(JsonModel::Array(xs)),
        axes.at("y"@) matches Some(axis) && axis.at("values"@) == Some(JsonModel::Array(ys)),
        xs.len() > 0,
        ys.len() > 0,
    ensures
        coverage.at("metocean:wigosId"@) == Some(JsonModel::Text(p.wigos_id@)),
        xs[0] matches JsonModel::Number(x, _) && ({
            let lon = Double { bits: x };
            (Double { bits: MIN_LON_BITS }).at_most(lon) && lon.at_most(
                (Double { bits: MAX_LON_BITS }),
            ) ==> p.point.lon == lon
        }),
        ys[0] matches JsonModel::Number(y, _) && ({
            let lat = Double { bits: y };
            (Double { bits: MIN_LAT_BITS }).at_most(lat) && lat.at_most(
                (Double { bits: MAX_LAT_BITS }),
            ) ==> p.point.lat == lat
        }),
        p.world == world,
{
}

/// A report is shown under the name that is known for its identity, and under
/// the identity itself where none is known.
pub proof fn reports_bear_the_known_name(
    s: AreaStation,
    p: ObservationPoint,
    stations: Seq<StationInfo>,
    world: WorldPoint,
    i: int,
)
    requires
        is_point_of(p, s, stations, world),
    ensures
        0 <= i < stations.len() && stations[i].wigos_id@ == p.wigos_id@ && (forall|j: int|
            0 <= j < stations.len() && j != i ==> (#[trigger] stations[j]).wigos_id@
                != p.wigos_id@) ==> p.station_id@ == stations[i].name@,
        (forall|j: int|
            0 <= j < stations.len() ==> (#[trigger] stations[j]).wigos_id@ != p.wigos_id@)
            ==> p.station_id@ == p.wigos_id@,
{
    lemma_known_name(stations, p.wigos_id@, stations.len(), i);
}

/// A feature that is a point is the station there, the first coordinate being
/// the longitude and the second the latitude, with the feature's identity and its
/// name as it is displayed.
pub proof fn listed_stations_stand_at_their_points(
    feature: JsonModel,
    geometry: JsonModel,
    properties: JsonModel,
    c: Seq<JsonModel>,
    id: Seq<char>,
    name: Seq<char>,
)
    requires
        feature.at("id"@) == Some(JsonModel::Text(id)),
        feature.at("properties"@) == Some(properties),
        properties.at("name"@) == Some(JsonModel::Text(name)),
        feature.at("geometry"@) == Some(geometry),
        geometry.at("type"@) == Some(JsonModel::Text("Point"@)),
        geometry.at("coordinates"@) == Some(JsonModel::Array(c)),
        c.len() >= 2,
        c[0] is Number,
        c[1] is Number,
    ensures
        station_of(feature) is Some,
        station_of(feature)->0.wigos_id == id,
        station_of(feature)->0.name == display_name(name),
        c[0] matches JsonModel::Number(x, _) && station_of(feature)->0.lon.bits == x,
        c[1] matches JsonModel::Number(y, _) && station_of(feature)->0.lat.bits == y,
{
}

proof fn lemma_quantities()
    ensures
        "air_temperature"@ != "wind_speed"@,
        "relative_humidity"@ != "wind_speed"@,
        "wind_from_direction"@ != "wind_speed"@,
        "air_pressure_at_mean_sea_level"@ != "wind_speed"@,
        is_quantity("air_temperature"@),
        is_quantity("relative_humidity"@),
        is_quantity("wind_from_direction"@),
        is_quantity("air_pressure_at_mean_sea_level"@),
        is_quantity("wind_speed"@),
{
    reveal_strlit("air_temperature");
    reveal_strlit("relative_humidity");
    reveal_strlit("wind_from_direction");
    reveal_strlit("air_pressure_at_mean_sea_level");
    reveal_strlit("wind_speed");
    assert("air_temperature"@.len() != "wind_speed"@.len());
    assert("relative_humidity"@.len() != "wind_speed"@.len());
    assert("wind_from_direction"@.len() != "wind_speed"@.len());
    assert("air_pressure_at_mean_sea_level"@.len() != "wind_speed"@.len());
}

/// Whether a text can name a quantity.
spec fn is_quantity(name: Seq<char>) -> bool {
    name.len() > 0 && forall|i: int| 0 <= i < name.len() ==> #[trigger] name[i] != ':'
}

proof fn lemma_first_at(s: Seq<char>, c: char, from: int)
    requires
        0 <= from,
    ensures
        first_at(s, c, from) matches Some(i) ==> from <= i < s.len() && s[i] == c && forall|k: int|
            from <= k < i ==> s[k] != c,
        first_at(s, c, from) is None ==> forall|k: int| from <= k < s.len() ==> s[k] != c,
    decreases s.len() - from,
{
    if from < s.len() && s[from] != c {
        lemma_first_at(s, c, from + 1);
    }
}

proof fn lemma_key_of(key: Seq<char>, name: Seq<char>)
    requires
        is_quantity(name),
    ensures
        before(key, ':') == name <==> is_key_of(key, name),
{
    lemma_first_at(key, ':', 0);
    match first_at(key, ':', 0) {
        Some(i) => {
            assert(key[i] == ':');
            if is_key_of(key, name) {
                if key == name {
                    assert(name[i] != ':');
                } else {
                    let n = name.len() as int;
                    assert(key.take(n) == name);
                    if i < n {
                        assert(key.take(n)[i] == name[i]);
                    }
                    assert(i == n);
                }
            }
        },
        None => {
            if is_key_of(key, name) && key != name {
                assert(key[name.len() as int] == ':');
            }
        },
    }
}

proof fn lemma_latest(range: (Seq<char>, JsonModel), name: Seq<char>)
    requires
        is_quantity(name),
    ensures
        gives_reading(range, name) <==> before(range.0, ':') == name && latest(range.1) is Some,
        gives_reading(range, name) ==> (range.1.at("values"@) matches Some(
            JsonModel::Array(values),
        ) && (values[values.len() - 1] matches JsonModel::Number(b, _) && latest(range.1) == Some(
            (Double { bits: b }),
        ))),
{
    lemma_key_of(range.0, name);
}

/// Until a range gives a reading there is none, and the first one stays unless a
/// mean replaces it.
proof fn lemma_first_reading(ranges: Seq<(Seq<char>, JsonModel)>, name: Seq<char>, i: int, n: nat)
    requires
        is_quantity(name),
        n <= ranges.len(),
        0 <= i,
        forall|j: int| 0 <= j < i && j < n ==> !gives_reading(#[trigger] ranges[j], name),
        i < n ==> gives_reading(ranges[i], name),
        forall|j: int|
            i < j < n ==> !(gives_reading(#[trigger] ranges[j], name) && name == "wind_speed"@
                && has_part(ranges[j].0, ":mean:"@)),
    ensures
        param(ranges, n, name) == if i < n {
            latest(ranges[i].1)
        } else {
            None
        },
    decreases n,
{
    if n > 0 {
        lemma_first_reading(ranges, name, i, (n - 1) as nat);
        lemma_latest(ranges[n - 1], name);
        assert(gives_reading(ranges[n - 1], name) ==> n - 1 >= i);
    }
}

proof fn lemma_last_mean(ranges: Seq<(Seq<char>, JsonModel)>, i: int, n: nat)
    requires
        is_quantity("wind_speed"@),
        0 <= i < n <= ranges.len(),
        gives_reading(ranges[i], "wind_speed"@),
        has_part(ranges[i].0, ":mean:"@),
        forall|j: int|
            i < j < ranges.len() ==> !(gives_reading(#[trigger] ranges[j], "wind_speed"@)
                && has_part(ranges[j].0, ":mean:"@)),
    ensures
        param(ranges, n, "wind_speed"@) == latest(ranges[i].1),
        ranges[i].1.at("values"@) matches Some(JsonModel::Array(values)) && (
        values[values.len() - 1] matches JsonModel::Number(b, _) && latest(ranges[i].1) == Some(
            (Double { bits: b }),
        )),
    decreases n,
{
    lemma_latest(ranges[n - 1], "wind_speed"@);
    if i < n - 1 {
        lemma_last_mean(ranges, i, (n - 1) as nat);
        assert(!(gives_reading(ranges[n - 1], "wind_speed"@) && has_part(
            ranges[n - 1].0,
            ":mean:"@,
        )));
    }
}

proof fn lemma_readings(ranges: Seq<(Seq<char>, JsonModel)>, name: Seq<char>)
    requires
        is_quantity(name),
    ensures
        forall|i: int, bits: u64| #[trigger]
            is_first_reading(ranges, name, i, bits) && (name != "wind_speed"@ || (forall|j: int|
                i < j < ranges.len() ==> !(gives_reading(#[trigger] ranges[j], name) && has_part(
                    ranges[j].0,
                    ":mean:"@,
                )))) ==> param(ranges, ranges.len(), name) == Some((Double { bits })),
        is_not_read(ranges, name) ==> param(ranges, ranges.len(), name) is None,
{
    assert forall|i: int, bits: u64| #[trigger]
        is_first_reading(ranges, name, i, bits) && (name != "wind_speed"@ || (forall|j: int|
            i < j < ranges.len() ==> !(gives_reading(#[trigger] ranges[j], name) && has_part(
                ranges[j].0,
                ":mean:"@,
            )))) implies param(ranges, ranges.len(), name) == Some((Double { bits })) by {
        lemma_first_reading(ranges, name, i, ranges.len());
        lemma_latest(ranges[i], name);
    }
    if is_not_read(ranges, name) {
        lemma_first_reading(ranges, name, ranges.len() as int, ranges.len());
    }
}

proof fn lemma_known_name(stations: Seq<StationInfo>, id: Seq<char>, n: nat, i: int)
    requires
        n <= stations.len(),
    ensures
        0 <= i < n && stations[i].wigos_id@ == id && (forall|j: int|
            0 <= j < n && j != i ==> (#[trigger] stations[j]).wigos_id@ != id) ==> known_name(
            stations,
            id,
            n,
        ) == Some(stations[i].name@),
        (forall|j: int| 0 <= j < n ==> (#[trigger] stations[j]).wigos_id@ != id) ==> known_name(
            stations,
            id,
            n,
        ) is None,
    decreases n,
{
    if n > 0 {
        lemma_known_name(stations, id, (n - 1) as nat, i);
        assert(stations[n - 1].wigos_id@ == id || stations[n - 1].wigos_id@ != id);
    }
}

/// Every report whose identity was not seen before is shown where it first comes.
pub proof fn new_reports_are_shown(
    points: Seq<ObservationPoint>,
    seen: Set<Seq<char>>,
    n: nat,
    i: int,
)
    requires
        0 <= i < n <= points.len(),
        points[i].wigos_id@.len() > 0,
        !seen.contains(points[i].wigos_id@),
        forall|j: int| 0 <= j < i ==> (#[trigger] points[j]).wigos_id@ != points[i].wigos_id@,
    ensures
        new_points(points, seen, n).contains(points[i]),
    decreases n,
{
    let before = new_points(points, seen, (n - 1) as nat);
    let after = new_points(points, seen, n);
    if i < n - 1 {
        new_reports_are_shown(points, seen, (n - 1) as nat, i);
        let k = choose|k: int| 0 <= k < before.len() && before[k] == points[i];
        assert(after[k] == points[i]);
    } else {
        lemma_seen_from(points, seen, (n - 1) as nat, points[i].wigos_id@);
        assert(after[before.len() as int] == points[i]);
    }
}

/// A report whose identity was seen before is not shown again.
pub proof fn known_reports_are_not_shown(
    points: Seq<ObservationPoint>,
    seen: Set<Seq<char>>,
    n: nat,
    k: int,
)
    requires
        n <= points.len(),
        0 <= k < new_points(points, seen, n).len(),
        new_points(points, seen, n)[k].wigos_id@.len() > 0,
    ensures
        !seen.contains(new_points(points, seen, n)[k].wigos_id@),
        points.contains(new_points(points, seen, n)[k]),
    decreases n,
{
    let before = new_points(points, seen, (n - 1) as nat);
    if k < before.len() {
        known_reports_are_not_shown(points, seen, (n - 1) as nat, k);
    } else {
        lemma_seen_grows(points, seen, (n - 1) as nat, points[n - 1].wigos_id@);
        assert(points.contains(points[n - 1]));
    }
}

proof fn lemma_seen_grows(
    points: Seq<ObservationPoint>,
    seen: Set<Seq<char>>,
    n: nat,
    id: Seq<char>,
)
    ensures
        seen.contains(id) ==> seen_after(points, seen, n).contains(id),
    decreases n,
{
    if n > 0 && n <= points.len() {
        lemma_seen_grows(points, seen, (n - 1) as nat, id);
    }
}

proof fn lemma_seen_from(
    points: Seq<ObservationPoint>,
    seen: Set<Seq<char>>,
    n: nat,
    id: Seq<char>,
)
    requires
        n <= points.len(),
        !seen.contains(id),
        forall|j: int| 0 <= j < n ==> (#[trigger] points[j]).wigos_id@ != id,
    ensures
        !seen_after(points, seen, n).contains(id),
    decreases n,
{
    if n > 0 {
        lemma_seen_from(points, seen, (n - 1) as nat, id);
    }
}

/// A coverage with an identity, a place and a reading gives a station.
pub proof fn complete_coverages_give_stations(
    coverage: JsonModel,
    ranges: Seq<(Seq<char>, JsonModel)>,
    axes: JsonModel,
    xs: Seq<JsonModel>,
    ys: Seq<JsonModel>,
    name: Seq<char>,
    i: int,
)
    requires
        coverage.at("metocean:wigosId"@) matches Some(JsonModel::Text(_)),
        coverage.at("domain"@) matches Some(domain) && domain.at("axes"@) == Some(axes),
        axes.at("x"@) matches Some(axis) && axis.at("values"@) == Some(JsonModel::Array(xs)),
        axes.at("y"@) matches Some(axis) && axis.at("values"@) == Some(JsonModel::Array(ys)),
        xs.len() > 0 && xs[0] is Number,
        ys.len() > 0 && ys[0] is Number,
        coverage.at("ranges"@) == Some(JsonModel::Object(ranges)),
        name.len() > 0 && forall|k: int| 0 <= k < name.len() ==> #[trigger] name[k] != ':',
        0 <= i < ranges.len(),
        gives_reading(ranges[i], name),
    ensures
        gives_station(coverage),
{
    lemma_some_reading(ranges, name, i, ranges.len());
    assert(param(ranges, ranges.len(), name) is Some);
}

proof fn lemma_some_reading(ranges: Seq<(Seq<char>, JsonModel)>, name: Seq<char>, i: int, n: nat)
    requires
        is_quantity(name),
        0 <= i < n <= ranges.len(),
        gives_reading(ranges[i], name),
    ensures
        param(ranges, n, name) is Some,
    decreases n,
{
    lemma_latest(ranges[n - 1], name);
    if i < n - 1 {
        lemma_some_reading(ranges, name, i, (n - 1) as nat);
    }
}

/// Where every coverage of an answer gives a station, the stations are those of
/// the coverages, in their order.
pub proof fn every_coverage_gives_its_station(
    stations: Seq<AreaStation>,
    coverages: Seq<JsonModel>,
    n: nat,
)
    requires
        n <= coverages.len(),
        are_stations_of(stations, coverages, n),
        forall|i: int| 0 <= i < n ==> gives_station(#[trigger] coverages[i]),
    ensures
        stations.len() == n,
        forall|i: int| 0 <= i < n ==> is_station_of(#[trigger] stations[i], coverages[i]),
    decreases n,
{
    if n > 0 {
        assert(gives_station(coverages[n - 1]));
        every_coverage_gives_its_station(stations.drop_last(), coverages, (n - 1) as nat);
        assert forall|i: int| 0 <= i < n implies is_station_of(
            #[trigger] stations[i],
            coverages[i],
        ) by {
            if i < n - 1 {
                assert(stations.drop_last()[i] == stations[i]);
            }
        }
    }
}

/// Where every feature of a list is a station, the stations are those of the
/// features, in their order; one that is none is left out.
pub proof fn every_feature_gives_its_station(features: Seq<JsonModel>, n: nat)
    requires
        n <= features.len(),
    ensures
        (forall|i: int| 0 <= i < n ==> station_of(#[trigger] features[i]) is Some) ==> stations_in(
            features,
            n,
        ) == Seq::new(n, |i: int| station_of(features[i])->0),
        forall|i: int|
            0 <= i < n && station_of(#[trigger] features[i]) is Some ==> stations_in(
                features,
                n,
            ).contains(station_of(features[i])->0),
    decreases n,
{
    let after = stations_in(features, n);
    if n > 0 {
        every_feature_gives_its_station(features, (n - 1) as nat);
        let before = stations_in(features, (n - 1) as nat);
        assert forall|i: int|
            0 <= i < n && station_of(#[trigger] features[i]) is Some implies after.contains(
            station_of(features[i])->0,
        ) by {
            let s = station_of(features[i])->0;
            if i < n - 1 {
                let k = choose|k: int| 0 <= k < before.len() && before[k] == s;
                assert(after[k] == s);
            } else {
                assert(after[before.len() as int] == s);
            }
        }
    }
    if forall|i: int| 0 <= i < n ==> station_of(#[trigger] features[i]) is Some {
        if n > 0 {
            assert(station_of(features[n - 1]) is Some);
        }
        assert(after =~= Seq::new(n, |i: int| station_of(features[i])->0));
    }
}

/// The box that is asked for is the ring of its corners, the longitude of each
/// before its latitude: south-west, south-east, north-east, north-west, and
/// south-west again.
pub proof fn boxes_are_rings_of_their_corners(
    west: Seq<char>,
    south: Seq<char>,
    east: Seq<char>,
    north: Seq<char>,
)
    ensures
        polygon(west, south, east, north) == "POLYGON(("@ + (west + " "@ + south) + ","@ + (east
            + " "@ + south) + ","@ + (east + " "@ + north) + ","@ + (west + " "@ + north) + ","@ + (
        west + " "@ + south) + "))"@,
{
    assert(polygon(west, south, east, north) =~= "POLYGON(("@ + (west + " "@ + south) + ","@ + (
    east + " "@ + south) + ","@ + (east + " "@ + north) + ","@ + (west + " "@ + north) + ","@ + (west
        + " "@ + south) + "))"@);
}

/// A name with a small letter is shown as it is, but for a space in place of each
/// underscore.
pub proof fn names_in_mixed_case_stay(name: Seq<char>, i: int)
    requires
        0 <= i < name.len(),
        name[i] != '_',
        lowercase(name[i]),
    ensures
        display_name(name).len() == name.len(),
        forall|k: int|
            0 <= k < name.len() ==> #[trigger] display_name(name)[k] == if name[k] == '_' {
                ' '
            } else {
                name[k]
            },
{
    assert(lowercase(spaced(name)[i]));
}

/// White space divides a text: its words are those before it and those behind.
pub proof fn white_space_divides_words(a: Seq<char>, c: char, b: Seq<char>)
    requires
        white(c),
    ensures
        words(a + seq![c] + b) == words(a) + words(b),
    decreases b.len(),
{
    let s = a + seq![c] + b;
    if b.len() == 0 {
        assert(s.drop_last() =~= a);
        assert(s.last() == c);
        assert(words(a) + words(b) =~= words(a));
    } else {
        let t = b.drop_last();
        white_space_divides_words(a, c, t);
        assert(s.drop_last() =~= a + seq![c] + t);
        assert(s.last() == b.last());
        if !white(b.last()) {
            if b.len() == 1 {
                assert(s[s.len() - 2] == c);
                assert(words(t) =~= Seq::<Seq<char>>::empty());
                assert(words(b) =~= seq![seq![b.last()]]);
                assert(words(s) =~= words(a) + words(b));
            } else {
                assert(s[s.len() - 2] == b[b.len() - 2]);
                if !white(b[b.len() - 2]) {
                    lemma_last_word(t);
                    let w = words(a) + words(t);
                    assert(w.drop_last() =~= words(a) + words(t).drop_last());
                    assert(w.last() == words(t).last());
                }
                assert(words(s) =~= words(a) + words(b));
            }
        }
    }
}

/// A text without white space is a word.
pub proof fn texts_without_white_space_are_words(s: Seq<char>)
    requires
        s.len() > 0,
        forall|i: int| 0 <= i < s.len() ==> !white(#[trigger] s[i]),
    ensures
        words(s) == seq![s],
    decreases s.len(),
{
    assert(!white(s[s.len() - 1]));
    if s.len() == 1 {
        assert(words(s.drop_last()) =~= Seq::<Seq<char>>::empty());
        assert(seq![s.last()] =~= s);
        assert(words(s) =~= seq![s]);
    } else {
        let t = s.drop_last();
        assert forall|i: int| 0 <= i < t.len() implies !white(#[trigger] t[i]) by {
            assert(t[i] == s[i]);
        }
        texts_without_white_space_are_words(t);
        assert(!white(s[s.len() - 2]));
        assert(t.push(s.last()) =~= s);
        assert(words(s) =~= seq![s]);
    }
}

proof fn lemma_last_word(s: Seq<char>)
    requires
        s.len() > 0,
        !white(s.last()),
    ensures
        words(s).len() > 0,
{
}

/// A name of one word in capitals is shown with its first letter large and the
/// others small.
pub proof fn words_in_capitals_are_titled(name: Seq<char>)
    requires
        name.len() > 0,
        forall|i: int|
            0 <= i < name.len() ==> !white(#[trigger] name[i]) && name[i] != '_' && !lowercase(
                name[i],
            ),
    ensures
        display_name(name) == uppercase_of(name[0]) + lowercase_of(name.drop_first()),
{
    assert(spaced(name) =~= name);
    texts_without_white_space_are_words(name);
    assert(titled_words(seq![name], 1) == titled(name));
}

/// The parts of a name in capitals are shown each by itself, with a space where
/// an underscore divides them.
pub proof fn parts_in_capitals_are_titled_apart(a: Seq<char>, b: Seq<char>)
    requires
        !lowercase(' '),
        forall|i: int| 0 <= i < a.len() ==> !lowercase(#[trigger] a[i]),
        forall|i: int| 0 <= i < b.len() ==> !lowercase(#[trigger] b[i]),
        words(spaced(a)).len() > 0,
        words(spaced(b)).len() > 0,
    ensures
        display_name(a + seq!['_'] + b) == display_name(a) + " "@ + display_name(b),
{
    let name = a + seq!['_'] + b;
    assert(spaced(name) =~= spaced(a) + seq![' '] + spaced(b));
    white_space_divides_words(spaced(a), ' ', spaced(b));
    lemma_titled_apart(words(spaced(a)), words(spaced(b)), words(spaced(b)).len());
}

proof fn lemma_titled_apart(a: Seq<Seq<char>>, b: Seq<Seq<char>>, n: nat)
    requires
        a.len() > 0,
        0 < n <= b.len(),
    ensures
        titled_words(a + b, a.len() + n) == titled_words(a, a.len()) + " "@ + titled_words(b, n),
    decreases n,
{
    let all = a + b;
    let m = a.len() + n;
    assert(all[m - 1] == b[n - 1]);
    lemma_titled_prefix(a, all, a.len());
    if n > 1 {
        lemma_titled_apart(a, b, (n - 1) as nat);
        assert(titled_words(all, m) =~= titled_words(a, a.len()) + " "@ + titled_words(b, n));
    }
}

proof fn lemma_titled_prefix(a: Seq<Seq<char>>, all: Seq<Seq<char>>, n: nat)
    requires
        n <= a.len() <= all.len(),
        forall|i: int| 0 <= i < a.len() ==> a[i] == all[i],
    ensures
        titled_words(all, n) == titled_words(a, n),
    decreases n,
{
    if n > 1 {
        lemma_titled_prefix(a, all, (n - 1) as nat);
    }
}

/// A report's identity does not depend on the names that are known.
pub proof fn identity_is_stable(
    s: AreaStation,
    p: ObservationPoint,
    q: ObservationPoint,
    cold: Seq<StationInfo>,
    warm: Seq<StationInfo>,
    a: WorldPoint,
    b: WorldPoint,
)
    requires
        is_point_of(p, s, cold, a),
        is_point_of(q, s, warm, b),
    ensures
        p.wigos_id@ == q.wigos_id@,
{
}

} // verus!
