//! Border geometry: where it comes from, how it is read and thinned out.

use serde_json::Value;
use vstd::prelude::*;
use vstd::string::*;

use crate::borders::{BorderLine, BorderLineKind, BorderResolution};
use crate::double::Double;
use crate::geo::{
    Bounds, GeoPoint, WorldPoint, MAX_LAT_BITS, MAX_LON_BITS, MIN_LAT_BITS, MIN_LON_BITS,
};
use crate::json::{
    as_array, as_number, as_str, at, get, get_in, items_in, items_of, json, json_of_bytes, jsons,
    parse_bytes, text_at, text_in, JsonModel,
};
use crate::text::{digits, number_text, same_text};

verus! {

pub const GEOJSON_BASE_URL: &'static str =
    "https://d2ad6b4ur7yvpq.cloudfront.net/naturalearth-3.3.0";

pub const GEOJSON_RAW_BASE_URL: &'static str =
    "https://raw.githubusercontent.com/nvkelso/natural-earth-vector/master/geojson";

pub const ADMIN_1_LINES_FILE: &'static str = "ne_10m_admin_1_states_provinces_lines.geojson";

pub const ROADS_FILE: &'static str = "ne_10m_roads.geojson";

/// The addresses of a file, the preferred one first.
pub fn detail_urls(file: &str) -> (r: Vec<String>)
    ensures
        r.len() == 2,
        r[0]@ == GEOJSON_BASE_URL@ + "/"@ + file@,
        r[1]@ == GEOJSON_RAW_BASE_URL@ + "/"@ + file@,
{
    let mut r: Vec<String> = Vec::new();
    r.push(GEOJSON_BASE_URL.to_string().concat("/").concat(file));
    r.push(GEOJSON_RAW_BASE_URL.to_string().concat("/").concat(file));
    r
}

/// The name of the file with the countries.
pub open spec fn country_file(resolution: BorderResolution) -> Seq<char> {
    "ne_"@ + resolution.scale_name() + "_admin_0_countries.geojson"@
}

/// The addresses of the countries.
pub fn country_urls(resolution: BorderResolution) -> (r: Vec<String>)
    ensures
        r.len() == 2,
        r[0]@ == GEOJSON_BASE_URL@ + "/"@ + country_file(resolution),
        r[1]@ == GEOJSON_RAW_BASE_URL@ + "/"@ + country_file(resolution),
{
    let file = "ne_".to_string().concat(resolution.country_scale()).concat(
        "_admin_0_countries.geojson",
    );
    detail_urls(file.as_str())
}

/// The directory of a resolution's prepared lines, below that of the maps.
pub fn tile_directory(resolution: BorderResolution) -> (s: String)
    ensures
        s@ == "tiles/v1/"@ + resolution.name() + "/"@ + digits(
            match resolution {
                BorderResolution::Low110m => 4nat,
                BorderResolution::Medium50m => 5,
                BorderResolution::High10m => 6,
                BorderResolution::Regional10m => 7,
            },
        ),
{
    "tiles/v1/".to_string().concat(resolution.label()).concat("/").concat(
        number_text(resolution.tile_zoom() as u64).as_str(),
    )
}

/// A line with its points in degrees.
#[derive(Debug)]
pub struct GeoLine {
    pub kind: BorderLineKind,
    pub points: Vec<GeoPoint>,
}

/// What a line holds.
pub type LineModel = (BorderLineKind, Seq<GeoPoint>);

pub open spec fn line_models(lines: Seq<GeoLine>) -> Seq<LineModel> {
    lines.map_values(|l: GeoLine| (l.kind, l.points@))
}

/// Why map data is of no use.
#[derive(Debug, Clone, Copy, PartialEq, Eq, Structural)]
pub enum MapError {
    /// It is no JSON.
    Malformed,
    /// It has no list of features.
    NoFeatures,
    /// It has nothing to draw.
    NoBorders,
}

/// The point of a position: a list that begins with the longitude and the
/// latitude.
pub open spec fn position(v: JsonModel) -> Option<GeoPoint> {
    match v.items() {
        Some(pair) => if pair.len() < 2 {
            None
        } else {
            match (pair[0].number(), pair[1].number()) {
                (Some(lon), Some(lat)) => Some(GeoPoint::bounded(lon, lat)),
                _ => None,
            }
        },
        None => None,
    }
}

/// The points among the first `n` items; what is no position is left out.
pub open spec fn positions(items: Seq<JsonModel>, n: nat) -> Seq<GeoPoint>
    decreases n,
{
    if n == 0 || n > items.len() {
        Seq::empty()
    } else {
        let before = positions(items, (n - 1) as nat);
        match position(items[n - 1]) {
            Some(p) => before.push(p),
            None => before,
        }
    }
}

/// The line of a list of positions, where it has two points.
pub open spec fn line_of(kind: BorderLineKind, v: JsonModel) -> Seq<LineModel> {
    match v.items() {
        Some(items) => {
            let points = positions(items, items.len());
            if points.len() > 1 {
                seq![(kind, points)]
            } else {
                Seq::empty()
            }
        },
        None => Seq::empty(),
    }
}

/// The lines of the first `n` of several lists of positions.
pub open spec fn lines_of(kind: BorderLineKind, items: Seq<JsonModel>, n: nat) -> Seq<LineModel>
    decreases n,
{
    if n == 0 || n > items.len() {
        Seq::empty()
    } else {
        lines_of(kind, items, (n - 1) as nat) + line_of(kind, items[n - 1])
    }
}

/// The lines of a list of lists of positions: the rings of a polygon, or the
/// parts of a line.
pub open spec fn rings_of(kind: BorderLineKind, v: JsonModel) -> Seq<LineModel> {
    match v.items() {
        Some(items) => lines_of(kind, items, items.len()),
        None => Seq::empty(),
    }
}

/// The rings of the first `n` of several polygons.
pub open spec fn polygons_of(kind: BorderLineKind, items: Seq<JsonModel>, n: nat) -> Seq<LineModel>
    decreases n,
{
    if n == 0 || n > items.len() {
        Seq::empty()
    } else {
        polygons_of(kind, items, (n - 1) as nat) + rings_of(kind, items[n - 1])
    }
}

/// The lines of a feature.
pub open spec fn feature_lines(kind: BorderLineKind, feature: JsonModel) -> Seq<LineModel> {
    let geometry = feature.at("geometry"@);
    match (text_at(at(geometry, "type"@)), at(geometry, "coordinates"@)) {
        (Some(t), Some(c)) => if t == "Polygon"@ {
            rings_of(kind, c)
        } else if t == "MultiPolygon"@ {
            match c.items() {
                Some(items) => polygons_of(kind, items, items.len()),
                None => Seq::empty(),
            }
        } else if t == "LineString"@ {
            line_of(kind, c)
        } else if t == "MultiLineString"@ {
            rings_of(kind, c)
        } else {
            Seq::empty()
        },
        _ => Seq::empty(),
    }
}

/// The lines of the first `n` features.
pub open spec fn lines_in(kind: BorderLineKind, features: Seq<JsonModel>, n: nat) -> Seq<LineModel>
    decreases n,
{
    if n == 0 || n > features.len() {
        Seq::empty()
    } else {
        lines_in(kind, features, (n - 1) as nat) + feature_lines(kind, features[n - 1])
    }
}

/// The lines of map data.
pub open spec fn map_lines(kind: BorderLineKind, v: Option<JsonModel>) -> Result<
    Seq<LineModel>,
    MapError,
> {
    match v {
        Some(root) => match items_of(root.at("features"@)) {
            Some(features) => Ok(lines_in(kind, features, features.len())),
            None => Err(MapError::NoFeatures),
        },
        None => Err(MapError::Malformed),
    }
}

fn read_position(v: &Value) -> (r: Option<GeoPoint>)
    ensures
        r == position(json(*v)),
{
    match as_array(v) {
        Some(pair) => {
            if pair.len() < 2 {
                return None;
            }
            assert(jsons(pair@)[0] == json(pair@[0]));
            assert(jsons(pair@)[1] == json(pair@[1]));
            match (as_number(&pair[0]), as_number(&pair[1])) {
                (Some(lon), Some(lat)) => Some(GeoPoint::new(lon, lat)),
                _ => None,
            }
        },
        None => None,
    }
}

/// Append the line of a list of positions.
fn extract_line_string(kind: BorderLineKind, value: &Value, lines: &mut Vec<GeoLine>)
    ensures
        line_models(final(lines)@) == line_models(old(lines)@) + line_of(kind, json(*value)),
{
    let items = match as_array(value) {
        Some(items) => items,
        None => {
            assert(line_models(lines@) + Seq::<LineModel>::empty() =~= line_models(lines@));
            return ;
        },
    };
    let ghost models = jsons(items@);
    let mut points: Vec<GeoPoint> = Vec::new();
    let mut i: usize = 0;
    while i < items.len()
        invariant
            i <= items.len(),
            models == jsons(items@),
            points@ == positions(models, i as nat),
        decreases items.len() - i,
    {
        assert(models[i as int] == json(items@[i as int]));
        match read_position(&items[i]) {
            Some(p) => {
                points.push(p);
            },
            None => {},
        }
        i = i + 1;
    }
    let ghost before = lines@;
    if points.len() > 1 {
        let ghost p = points@;
        lines.push(GeoLine { kind, points });
        assert(line_models(lines@) =~= line_models(before) + seq![(kind, p)]);
    } else {
        assert(line_models(lines@) + Seq::<LineModel>::empty() =~= line_models(lines@));
    }
}

/// Append the lines of a list of lists of positions.
fn extract_polygon(kind: BorderLineKind, value: &Value, lines: &mut Vec<GeoLine>)
    ensures
        line_models(final(lines)@) == line_models(old(lines)@) + rings_of(kind, json(*value)),
{
    let rings = match as_array(value) {
        Some(rings) => rings,
        None => {
            assert(line_models(lines@) + Seq::<LineModel>::empty() =~= line_models(lines@));
            return ;
        },
    };
    let ghost models = jsons(rings@);
    let ghost start = line_models(lines@);
    assert(start + Seq::<LineModel>::empty() =~= start);
    let mut i: usize = 0;
    while i < rings.len()
        invariant
            i <= rings.len(),
            models == jsons(rings@),
            line_models(lines@) == start + lines_of(kind, models, i as nat),
        decreases rings.len() - i,
    {
        assert(models[i as int] == json(rings@[i as int]));
        extract_line_string(kind, &rings[i], lines);
        assert((start + lines_of(kind, models, i as nat)) + line_of(kind, models[i as int]) =~= start
            + lines_of(kind, models, (i + 1) as nat));
        i = i + 1;
    }
}

fn extract_polygons(kind: BorderLineKind, value: &Value, lines: &mut Vec<GeoLine>)
    ensures
        line_models(final(lines)@) == line_models(old(lines)@) + match json(*value).items() {
            Some(items) => polygons_of(kind, items, items.len()),
            None => Seq::empty(),
        },
{
    let polygons = match as_array(value) {
        Some(polygons) => polygons,
        None => {
            assert(line_models(lines@) + Seq::<LineModel>::empty() =~= line_models(lines@));
            return ;
        },
    };
    let ghost models = jsons(polygons@);
    let ghost start = line_models(lines@);
    assert(start + Seq::<LineModel>::empty() =~= start);
    let mut i: usize = 0;
    while i < polygons.len()
        invariant
            i <= polygons.len(),
            models == jsons(polygons@),
            line_models(lines@) == start + polygons_of(kind, models, i as nat),
        decreases polygons.len() - i,
    {
        assert(models[i as int] == json(polygons@[i as int]));
        extract_polygon(kind, &polygons[i], lines);
        assert((start + polygons_of(kind, models, i as nat)) + rings_of(kind, models[i as int])
            =~= start + polygons_of(kind, models, (i + 1) as nat));
        i = i + 1;
    }
}

fn extract_feature(kind: BorderLineKind, feature: &Value, lines: &mut Vec<GeoLine>)
    ensures
        line_models(final(lines)@) == line_models(old(lines)@) + feature_lines(
            kind,
            json(*feature),
        ),
{
    let geometry = get(feature, "geometry");
    let ghost start = line_models(lines@);
    assert(start + Seq::<LineModel>::empty() =~= start);
    match (text_in(get_in(geometry, "type")), get_in(geometry, "coordinates")) {
        (Some(t), Some(c)) => {
            if same_text(t, "Polygon") {
                extract_polygon(kind, c, lines);
            } else if same_text(t, "MultiPolygon") {
                extract_polygons(kind, c, lines);
            } else if same_text(t, "LineString") {
                extract_line_string(kind, c, lines);
            } else if same_text(t, "MultiLineString") {
                extract_polygon(kind, c, lines);
            }
        },
        _ => {},
    }
}

/// Read the lines of map data.
pub fn parse_lines(kind: BorderLineKind, bytes: &[u8]) -> (r: Result<Vec<GeoLine>, MapError>)
    ensures
        match r {
            Ok(lines) => map_lines(kind, json_of_bytes(bytes@)) == Ok::<_, MapError>(
                line_models(lines@),
            ),
            Err(e) => map_lines(kind, json_of_bytes(bytes@)) == Err::<Seq<LineModel>, _>(e),
        },
{
    let root = match parse_bytes(bytes) {
        Some(v) => v,
        None => {
            return Err(MapError::Malformed);
        },
    };
    let features = match items_in(get(&root, "features")) {
        Some(f) => f,
        None => {
            return Err(MapError::NoFeatures);
        },
    };
    let ghost models = jsons(features@);
    let mut lines: Vec<GeoLine> = Vec::new();
    assert(line_models(lines@) =~= Seq::<LineModel>::empty());
    let mut i: usize = 0;
    while i < features.len()
        invariant
            i <= features.len(),
            models == jsons(features@),
            line_models(lines@) == lines_in(kind, models, i as nat),
        decreases features.len() - i,
    {
        assert(models[i as int] == json(features@[i as int]));
        extract_feature(kind, &features[i], &mut lines);
        i = i + 1;
    }
    Ok(lines)
}

/// Whether a value is a list of two or more positions, each a list that begins
/// with two numbers.
pub open spec fn is_path(v: JsonModel) -> bool {
    v matches JsonModel::Array(items) && items.len() >= 2 && forall|i: int|
        0 <= i < items.len() ==> ((#[trigger] items[i]) matches JsonModel::Array(c) && c.len() >= 2
            && c[0] is Number && c[1] is Number)
}

/// Whether points are those of a list of positions, in its order: the first
/// number of a position is the longitude and the second the latitude, each moved
/// to the nearest edge of the map where it lies outside.
pub open spec fn runs_through(points: Seq<GeoPoint>, v: JsonModel) -> bool {
    let west = Double { bits: MIN_LON_BITS };
    let east = Double { bits: MAX_LON_BITS };
    let south = Double { bits: MIN_LAT_BITS };
    let north = Double { bits: MAX_LAT_BITS };
    v matches JsonModel::Array(items) && points.len() == items.len() && forall|i: int|
        0 <= i < items.len() ==> ((#[trigger] items[i]) matches JsonModel::Array(c)
            && c[0] matches JsonModel::Number(x, _) && c[1] matches JsonModel::Number(y, _) && {
            let lon = Double { bits: x };
            let lat = Double { bits: y };
            &&& west.at_most(lon) && lon.at_most(east) ==> points[i].lon == lon
            &&& lon.below(west) ==> points[i].lon == west
            &&& east.below(lon) ==> points[i].lon == east
            &&& south.at_most(lat) && lat.at_most(north) ==> points[i].lat == lat
            &&& lat.below(south) ==> points[i].lat == south
            &&& north.below(lat) ==> points[i].lat == north
        })
}

/// Whether lines are of a kind and run through the lists of positions that
/// `paths` holds, one each and in their order.
pub open spec fn are_lines_through(
    lines: Seq<LineModel>,
    kind: BorderLineKind,
    paths: Seq<JsonModel>,
) -> bool {
    &&& lines.len() == paths.len()
    &&& forall|j: int|
        0 <= j < lines.len() ==> (#[trigger] lines[j]).0 == kind && runs_through(
            lines[j].1,
            paths[j],
        )
}

/// A line string is a line through its positions.
pub proof fn line_strings_run_through_their_positions(
    kind: BorderLineKind,
    feature: JsonModel,
    geometry: JsonModel,
    path: JsonModel,
)
    requires
        feature.at("geometry"@) == Some(geometry),
        geometry.at("type"@) == Some(JsonModel::Text("LineString"@)),
        geometry.at("coordinates"@) == Some(path),
        is_path(path),
    ensures
        are_lines_through(feature_lines(kind, feature), kind, seq![path]),
{
    lemma_type_names();
    lemma_line_of(kind, path);
}

/// A polygon is a line through each of its rings, and a multi line string one
/// through each of its parts.
pub proof fn polygons_run_through_their_rings(
    kind: BorderLineKind,
    feature: JsonModel,
    geometry: JsonModel,
    paths: Seq<JsonModel>,
)
    requires
        feature.at("geometry"@) == Some(geometry),
        geometry.at("type"@) == Some(JsonModel::Text("Polygon"@)) || geometry.at("type"@) == Some(
            JsonModel::Text("MultiLineString"@),
        ),
        geometry.at("coordinates"@) == Some(JsonModel::Array(paths)),
        forall|j: int| 0 <= j < paths.len() ==> is_path(#[trigger] paths[j]),
    ensures
        are_lines_through(feature_lines(kind, feature), kind, paths),
{
    lemma_type_names();
    lemma_lines_of(kind, paths, paths.len());
    assert(paths.take(paths.len() as int) =~= paths);
}

/// A multi polygon is a line through each ring of each of its polygons.
pub proof fn multi_polygons_run_through_all_rings(
    kind: BorderLineKind,
    feature: JsonModel,
    geometry: JsonModel,
    polygons: Seq<Seq<JsonModel>>,
)
    requires
        feature.at("geometry"@) == Some(geometry),
        geometry.at("type"@) == Some(JsonModel::Text("MultiPolygon"@)),
        geometry.at("coordinates"@) == Some(
            JsonModel::Array(polygons.map_values(|rings: Seq<JsonModel>| JsonModel::Array(rings))),
        ),
        forall|i: int, j: int|
            0 <= i < polygons.len() && 0 <= j < polygons[i].len() ==> is_path(
                #[trigger] polygons[i][j],
            ),
    ensures
        are_lines_through(feature_lines(kind, feature), kind, polygons.flatten()),
{
    lemma_type_names();
    lemma_polygons_of(kind, polygons, polygons.len());
    assert(polygons.take(polygons.len() as int) =~= polygons);
}

/// The lines of map data are those of its features, one after another.
pub proof fn map_lines_are_those_of_the_features(
    kind: BorderLineKind,
    root: JsonModel,
    features: Seq<JsonModel>,
)
    requires
        root.at("features"@) == Some(JsonModel::Array(features)),
    ensures
        map_lines(kind, Some(root)) == Ok::<_, MapError>(
            features.map_values(|f: JsonModel| feature_lines(kind, f)).flatten(),
        ),
{
    lemma_lines_in(kind, features, features.len());
    assert(features.take(features.len() as int) =~= features);
}

proof fn lemma_type_names()
    ensures
        "LineString"@ != "Polygon"@,
        "LineString"@ != "MultiPolygon"@,
        "MultiLineString"@ != "Polygon"@,
        "MultiLineString"@ != "MultiPolygon"@,
        "MultiLineString"@ != "LineString"@,
        "MultiPolygon"@ != "Polygon"@,
{
    reveal_strlit("Polygon");
    reveal_strlit("MultiPolygon");
    reveal_strlit("LineString");
    reveal_strlit("MultiLineString");
    assert("LineString"@.len() != "Polygon"@.len());
    assert("LineString"@.len() != "MultiPolygon"@.len());
    assert("MultiLineString"@.len() != "Polygon"@.len());
    assert("MultiLineString"@.len() != "MultiPolygon"@.len());
    assert("MultiLineString"@.len() != "LineString"@.len());
    assert("MultiPolygon"@.len() != "Polygon"@.len());
}

proof fn lemma_positions(items: Seq<JsonModel>, n: nat)
    requires
        n <= items.len(),
        is_path(JsonModel::Array(items)),
    ensures
        positions(items, n).len() == n,
        forall|i: int|
            0 <= i < n ==> Some(#[trigger] positions(items, n)[i]) == position(items[i]),
    decreases n,
{
    if n > 0 {
        lemma_positions(items, (n - 1) as nat);
        assert(items[n - 1] is Array);
    }
}

proof fn lemma_line_of(kind: BorderLineKind, path: JsonModel)
    requires
        is_path(path),
    ensures
        line_of(kind, path).len() == 1,
        line_of(kind, path)[0].0 == kind,
        runs_through(line_of(kind, path)[0].1, path),
{
    let items = path->Array_0;
    lemma_positions(items, items.len());
    let points = positions(items, items.len());
    assert forall|i: int| 0 <= i < items.len() implies Some(points[i]) == position(
        #[trigger] items[i],
    ) by {
        assert(Some(points[i]) == position(items[i]));
    }
}

proof fn lemma_lines_of(kind: BorderLineKind, paths: Seq<JsonModel>, n: nat)
    requires
        n <= paths.len(),
        forall|j: int| 0 <= j < paths.len() ==> is_path(#[trigger] paths[j]),
    ensures
        are_lines_through(lines_of(kind, paths, n), kind, paths.take(n as int)),
    decreases n,
{
    if n > 0 {
        lemma_lines_of(kind, paths, (n - 1) as nat);
        lemma_line_of(kind, paths[n - 1]);
        let before = lines_of(kind, paths, (n - 1) as nat);
        assert forall|j: int| 0 <= j < n implies (#[trigger] lines_of(kind, paths, n)[j]).0 == kind
            && runs_through(lines_of(kind, paths, n)[j].1, paths.take(n as int)[j]) by {
            if j < n - 1 {
                assert(before[j].0 == kind);
                assert(paths.take(n - 1)[j] == paths.take(n as int)[j]);
            }
        }
    }
}

proof fn lemma_polygons_of(kind: BorderLineKind, polygons: Seq<Seq<JsonModel>>, n: nat)
    requires
        n <= polygons.len(),
        forall|i: int, j: int|
            0 <= i < polygons.len() && 0 <= j < polygons[i].len() ==> is_path(
                #[trigger] polygons[i][j],
            ),
    ensures
        ({
            let items = polygons.map_values(|rings: Seq<JsonModel>| JsonModel::Array(rings));
            are_lines_through(
                polygons_of(kind, items, n),
                kind,
                polygons.take(n as int).flatten(),
            )
        }),
    decreases n,
{
    let items = polygons.map_values(|rings: Seq<JsonModel>| JsonModel::Array(rings));
    if n > 0 {
        lemma_polygons_of(kind, polygons, (n - 1) as nat);
        let rings = polygons[n - 1];
        lemma_lines_of(kind, rings, rings.len());
        assert(rings.take(rings.len() as int) =~= rings);
        let before = polygons_of(kind, items, (n - 1) as nat);
        let last = lines_of(kind, rings, rings.len());
        let flat = polygons.take(n - 1).flatten();
        assert(polygons.take(n as int) =~= polygons.take(n - 1).push(rings));
        polygons.take(n - 1).lemma_flatten_push(rings);
        assert(polygons_of(kind, items, n) == before + last);
        assert forall|j: int| 0 <= j < (before + last).len() implies (#[trigger] (before
            + last)[j]).0 == kind && runs_through((before + last)[j].1, (flat + rings)[j]) by {
            if j < before.len() {
                assert(before[j].0 == kind);
            } else {
                assert(last[j - before.len()].0 == kind);
            }
        }
    } else {
        assert(polygons.take(0) =~= Seq::empty());
    }
}

proof fn lemma_lines_in(kind: BorderLineKind, features: Seq<JsonModel>, n: nat)
    requires
        n <= features.len(),
    ensures
        lines_in(kind, features, n) == features.take(n as int).map_values(
            |f: JsonModel| feature_lines(kind, f),
        ).flatten(),
    decreases n,
{
    let lines = |f: JsonModel| feature_lines(kind, f);
    if n > 0 {
        lemma_lines_in(kind, features, (n - 1) as nat);
        let before = features.take(n - 1).map_values(lines);
        assert(features.take(n as int).map_values(lines) =~= before.push(lines(features[n - 1])));
        before.lemma_flatten_push(lines(features[n - 1]));
    } else {
        assert(features.take(0).map_values(lines) =~= Seq::empty());
    }
}

/// Read the countries; data with nothing to draw is an error.
pub fn parse_country_lines(bytes: &[u8]) -> (r: Result<Vec<GeoLine>, MapError>)
    ensures
        match map_lines(BorderLineKind::Country, json_of_bytes(bytes@)) {
            Ok(lines) => if lines.len() == 0 {
                r == Err::<Vec<GeoLine>, _>(MapError::NoBorders)
            } else {
                r matches Ok(v) && line_models(v@) == lines
            },
            Err(e) => r == Err::<Vec<GeoLine>, _>(e),
        },
{
    match parse_lines(BorderLineKind::Country, bytes) {
        Ok(lines) => {
            assert(line_models(lines@).len() == lines.len());
            if lines.len() == 0 {
                Err(MapError::NoBorders)
            } else {
                Ok(lines)
            }
        },
        Err(e) => Err(e),
    }
}

/// The lines of a resolution: countries, and where there is data of them
/// regions and roads.
pub open spec fn source_lines(
    countries: Option<JsonModel>,
    regions: Option<Option<JsonModel>>,
    roads: Option<Option<JsonModel>>,
) -> Result<Seq<LineModel>, MapError> {
    match map_lines(BorderLineKind::Country, countries) {
        Err(e) => Err(e),
        Ok(base) => if base.len() == 0 {
            Err(MapError::NoBorders)
        } else {
            match more_lines(BorderLineKind::Region, regions) {
                Err(e) => Err(e),
                Ok(more) => match more_lines(BorderLineKind::Road, roads) {
                    Err(e) => Err(e),
                    Ok(rest) => Ok(base + more + rest),
                },
            }
        },
    }
}

/// The lines of map data, nothing where there is no data.
pub open spec fn more_lines(kind: BorderLineKind, data: Option<Option<JsonModel>>) -> Result<
    Seq<LineModel>,
    MapError,
> {
    match data {
        Some(v) => map_lines(kind, v),
        None => Ok(Seq::empty()),
    }
}

pub open spec fn json_of_data(data: Option<Vec<u8>>) -> Option<Option<JsonModel>> {
    match data {
        Some(b) => Some(json_of_bytes(b@)),
        None => None,
    }
}

/// Read the lines of a source and put them behind those that there are, unless
/// the work was stopped.
pub fn add_source_lines(
    kind: BorderLineKind,
    data: &Option<Vec<u8>>,
    stopped: bool,
    lines: &mut Vec<GeoLine>,
) -> (r: Option<MapError>)
    ensures
        if stopped {
            r is None && final(lines)@ == old(lines)@
        } else {
            match more_lines(kind, json_of_data(*data)) {
                Ok(more) => r is None && line_models(final(lines)@) == line_models(old(lines)@)
                    + more,
                Err(e) => r == Some(e) && final(lines)@ == old(lines)@,
            }
        },
{
    let ghost start = lines@;
    if stopped {
        return None;
    }
    match data {
        Some(bytes) => match parse_lines(kind, bytes.as_slice()) {
            Ok(more) => {
                let mut more = more;
                let ghost added = more@;
                lines.append(&mut more);
                assert(line_models(lines@) =~= line_models(start) + line_models(added));
                None
            },
            Err(e) => Some(e),
        },
        None => {
            assert(line_models(start) + Seq::<LineModel>::empty() =~= line_models(start));
            None
        },
    }
}

/// Read all lines of a resolution.
pub fn all_source_lines(
    countries: &[u8],
    regions: &Option<Vec<u8>>,
    roads: &Option<Vec<u8>>,
) -> (r: Result<Vec<GeoLine>, MapError>)
    ensures
        match source_lines(json_of_bytes(countries@), json_of_data(*regions), json_of_data(*roads)) {
            Ok(lines) => r matches Ok(v) && line_models(v@) == lines,
            Err(e) => r == Err::<Vec<GeoLine>, _>(e),
        },
{
    let mut lines = match parse_country_lines(countries) {
        Ok(lines) => lines,
        Err(e) => {
            return Err(e);
        },
    };
    match add_source_lines(BorderLineKind::Region, regions, false, &mut lines) {
        Some(e) => {
            return Err(e);
        },
        None => {},
    }
    match add_source_lines(BorderLineKind::Road, roads, false, &mut lines) {
        Some(e) => {
            return Err(e);
        },
        None => {},
    }
    Ok(lines)
}

/// The lines of a resolution are those of the countries, then those of the
/// regions, then the roads, each of its kind; where the countries have no line
/// there is nothing to draw.
pub proof fn lines_keep_their_kind(
    countries: JsonModel,
    regions: JsonModel,
    roads: JsonModel,
    base: Seq<LineModel>,
    more: Seq<LineModel>,
    rest: Seq<LineModel>,
    i: int,
)
    requires
        map_lines(BorderLineKind::Country, Some(countries)) == Ok::<_, MapError>(base),
        map_lines(BorderLineKind::Region, Some(regions)) == Ok::<_, MapError>(more),
        map_lines(BorderLineKind::Road, Some(roads)) == Ok::<_, MapError>(rest),
        0 <= i < base.len() + more.len() + rest.len(),
    ensures
        base.len() > 0 ==> (source_lines(Some(countries), Some(Some(regions)), Some(Some(roads)))
            matches Ok(all) && all == base + more + rest && all[i].0 == if i < base.len() {
            BorderLineKind::Country
        } else if i < base.len() + more.len() {
            BorderLineKind::Region
        } else {
            BorderLineKind::Road
        }),
        base.len() == 0 ==> source_lines(
            Some(countries),
            Some(Some(regions)),
            Some(Some(roads)),
        ) == Err::<Seq<LineModel>, _>(MapError::NoBorders),
{
    lemma_kind(BorderLineKind::Country, countries);
    lemma_kind(BorderLineKind::Region, regions);
    lemma_kind(BorderLineKind::Road, roads);
    if i >= base.len() + more.len() {
        assert(rest[i - base.len() - more.len()].0 == BorderLineKind::Road);
    } else if i >= base.len() {
        assert(more[i - base.len()].0 == BorderLineKind::Region);
    }
}

spec fn all_of_kind(lines: Seq<LineModel>, kind: BorderLineKind) -> bool {
    forall|i: int| 0 <= i < lines.len() ==> (#[trigger] lines[i]).0 == kind
}

proof fn lemma_kind(kind: BorderLineKind, root: JsonModel)
    ensures
        map_lines(kind, Some(root)) matches Ok(lines) ==> all_of_kind(lines, kind),
{
    match items_of(root.at("features"@)) {
        Some(features) => {
            lemma_features_kind(kind, features, features.len());
        },
        None => {},
    }
}

proof fn lemma_features_kind(kind: BorderLineKind, features: Seq<JsonModel>, n: nat)
    ensures
        all_of_kind(lines_in(kind, features, n), kind),
    decreases n,
{
    if 0 < n <= features.len() {
        lemma_features_kind(kind, features, (n - 1) as nat);
        match at(features[n - 1].at("geometry"@), "coordinates"@) {
            Some(c) => match c.items() {
                Some(items) => {
                    lemma_lines_kind(kind, items, items.len());
                    lemma_polygons_kind(kind, items, items.len());
                },
                None => {},
            },
            None => {},
        }
        assert(all_of_kind(feature_lines(kind, features[n - 1]), kind));
    }
}

proof fn lemma_lines_kind(kind: BorderLineKind, items: Seq<JsonModel>, n: nat)
    ensures
        all_of_kind(lines_of(kind, items, n), kind),
    decreases n,
{
    if 0 < n <= items.len() {
        lemma_lines_kind(kind, items, (n - 1) as nat);
        assert(all_of_kind(line_of(kind, items[n - 1]), kind));
    }
}

proof fn lemma_polygons_kind(kind: BorderLineKind, items: Seq<JsonModel>, n: nat)
    ensures
        all_of_kind(polygons_of(kind, items, n), kind),
    decreases n,
{
    if 0 < n <= items.len() {
        lemma_polygons_kind(kind, items, (n - 1) as nat);
        match items[n - 1].items() {
            Some(rings) => {
                lemma_lines_kind(kind, rings, rings.len());
            },
            None => {},
        }
    }
}

/// Every line that map data gives can be drawn: it has two points at least.
pub proof fn lines_can_be_drawn(kind: BorderLineKind, v: JsonModel, i: int)
    requires
        0 <= i < line_of(kind, v).len(),
    ensures
        line_of(kind, v)[i].0 == kind,
        line_of(kind, v)[i].1.len() >= 2,
{
}

/// How far a thinned-out line may stray, in world units: the bit patterns of
/// 0.0007, 0.00025, 0.0001 and 0.000008.
pub open spec fn epsilon_bits(resolution: BorderResolution) -> u64 {
    match resolution {
        BorderResolution::Low110m => 0x3f46_f006_8db8_bac7,
        BorderResolution::Medium50m => 0x3f30_624d_d2f1_a9fc,
        BorderResolution::High10m => 0x3f1a_36e2_eb1c_432d,
        BorderResolution::Regional10m => 0x3ee0_c6f7_a0b5_ed8d,
    }
}

pub fn simplification_epsilon(resolution: BorderResolution) -> (r: Option<Double>)
    ensures
        r == Some(Double { bits: epsilon_bits(resolution) }),
{
    let bits: u64 = match resolution {
        BorderResolution::Low110m => 0x3f46_f006_8db8_bac7,
        BorderResolution::Medium50m => 0x3f30_624d_d2f1_a9fc,
        BorderResolution::High10m => 0x3f1a_36e2_eb1c_432d,
        BorderResolution::Regional10m => 0x3ee0_c6f7_a0b5_ed8d,
    };
    Some(Double::from_bits(bits))
}

/// The thinning out of a line under way: which points stay, and the stretches
/// between two of them that are still to be looked at.
#[derive(Debug)]
pub struct Simplification {
    keep: Vec<bool>,
    pending: Vec<(usize, usize)>,
}

/// Which points between `a` and `b` stay, where `far` tells for a stretch the
/// point that strays too far from it, if one does: that point stays, and both
/// sides of it are looked at in turn.
pub open spec fn stays(far: spec_fn(int, int) -> Option<int>, a: int, b: int, k: int) -> bool
    decreases b - a,
{
    if b <= a + 1 {
        false
    } else {
        match far(a, b) {
            Some(i) => if a < i < b {
                k == i || stays(far, a, i, k) || stays(far, i, b, k)
            } else {
                false
            },
            None => false,
        }
    }
}

impl Simplification {
    pub closed spec fn kept(self) -> Seq<bool> {
        self.keep@
    }

    pub closed spec fn open_stretches(self) -> Seq<(usize, usize)> {
        self.pending@
    }

    pub open spec fn well_formed(self) -> bool {
        &&& forall|i: int|
            0 <= i < self.open_stretches().len() ==> {
                let (a, b) = #[trigger] self.open_stretches()[i];
                a + 1 < b < self.kept().len()
            }
        &&& self.kept().len() > 0 ==> self.kept()[0] && self.kept().last()
    }

    /// Which points stay in the end, where `far` settles the stretches.
    pub open spec fn in_the_end(self, far: spec_fn(int, int) -> Option<int>, k: int) -> bool {
        ||| 0 <= k < self.kept().len() && self.kept()[k]
        ||| exists|i: int|
            0 <= i < self.open_stretches().len() && stays(
                far,
                (#[trigger] self.open_stretches()[i]).0 as int,
                self.open_stretches()[i].1 as int,
                k,
            )
    }

    /// Start with a line of so many points. Its ends stay, and so does
    /// everything where there are fewer than three, or where the work was
    /// cancelled.
    pub fn new(n: usize, cancelled: bool) -> (s: Simplification)
        ensures
            s.well_formed(),
            s.kept().len() == n,
            forall|k: int|
                0 <= k < n ==> s.kept()[k] == (cancelled || n < 3 || k == 0 || k == n - 1),
            s.open_stretches() == if cancelled || n < 3 {
                Seq::empty()
            } else {
                seq![(0usize, (n - 1) as usize)]
            },
    {
        let all = cancelled || n < 3;
        let mut keep: Vec<bool> = Vec::new();
        let mut i: usize = 0;
        while i < n
            invariant
                i <= n,
                keep.len() == i,
                forall|k: int| 0 <= k < i ==> keep[k] == (all || k == 0 || k == n - 1),
            decreases n - i,
        {
            keep.push(all || i == 0 || i == n - 1);
            i = i + 1;
        }
        let mut pending: Vec<(usize, usize)> = Vec::new();
        if !all {
            pending.push((0, n - 1));
        }
        let s = Simplification { keep, pending };
        assert(s.open_stretches() =~= if all {
            Seq::empty()
        } else {
            seq![(0usize, (n - 1) as usize)]
        });
        s
    }

    /// The stretch to look at next, none where all is settled.
    pub fn next_stretch(&self) -> (r: Option<(usize, usize)>)
        ensures
            r == if self.open_stretches().len() == 0 {
                None
            } else {
                Some(self.open_stretches().last())
            },
    {
        if self.pending.len() == 0 {
            None
        } else {
            Some(self.pending[self.pending.len() - 1])
        }
    }

    /// Settle the stretch: a point in it that strays too far stays, and both
    /// sides of it become stretches where there is something between.
    pub fn settle(&mut self, farthest: Option<usize>)
        requires
            old(self).well_formed(),
            old(self).open_stretches().len() > 0,
            farthest matches Some(i) ==> old(self).open_stretches().last().0 < i
                < old(self).open_stretches().last().1,
        ensures
            final(self).well_formed(),
            match farthest {
                None => final(self).kept() == old(self).kept() && final(self).open_stretches()
                    == old(self).open_stretches().drop_last(),
                Some(i) => {
                    let (a, b) = old(self).open_stretches().last();
                    &&& final(self).kept() == old(self).kept().update(i as int, true)
                    &&& final(self).open_stretches() == old(self).open_stretches().drop_last()
                        + stretch(i, b) + stretch(a, i)
                },
            },
    {
        let ghost before = self.pending@;
        let last = self.pending.pop();
        match (last, farthest) {
            (Some((a, b)), Some(i)) => {
                self.keep.set(i, true);
                if i + 1 < b {
                    self.pending.push((i, b));
                }
                if a + 1 < i {
                    self.pending.push((a, i));
                }
                assert(self.pending@ =~= before.drop_last() + stretch(i, b) + stretch(a, i));
            },
            _ => {},
        }
    }

    /// The points that stay, in their order.
    pub fn finish(&self, points: &Vec<WorldPoint>) -> (r: Vec<WorldPoint>)
        requires
            points.len() == self.kept().len(),
        ensures
            r@ == chosen(points@, self.kept(), points@.len()),
    {
        let mut r: Vec<WorldPoint> = Vec::new();
        let mut i: usize = 0;
        while i < points.len()
            invariant
                i <= points.len(),
                points.len() == self.keep.len(),
                r@ == chosen(points@, self.keep@, i as nat),
            decreases points.len() - i,
        {
            if self.keep[i] {
                r.push(points[i]);
            }
            i = i + 1;
        }
        r
    }
}

/// A stretch with something between its ends.
pub open spec fn stretch(a: usize, b: usize) -> Seq<(usize, usize)> {
    if a + 1 < b {
        seq![(a, b)]
    } else {
        Seq::empty()
    }
}

/// Those of the first `n` items that are marked.
pub open spec fn chosen(points: Seq<WorldPoint>, marks: Seq<bool>, n: nat) -> Seq<WorldPoint>
    decreases n,
{
    if n == 0 {
        Seq::empty()
    } else {
        let before = chosen(points, marks, (n - 1) as nat);
        if marks[n - 1] {
            before.push(points[n - 1])
        } else {
            before
        }
    }
}

/// The ends of a line stay.
pub proof fn ends_stay(points: Seq<WorldPoint>, marks: Seq<bool>)
    requires
        points.len() > 0,
        marks.len() == points.len(),
        marks[0],
        marks.last(),
    ensures
        chosen(points, marks, points.len()).len() > 0,
        chosen(points, marks, points.len())[0] == points[0],
        chosen(points, marks, points.len()).last() == points.last(),
{
    lemma_first_chosen(points, marks, points.len());
}

proof fn lemma_first_chosen(points: Seq<WorldPoint>, marks: Seq<bool>, n: nat)
    requires
        0 < n <= points.len(),
        marks.len() == points.len(),
        marks[0],
    ensures
        chosen(points, marks, n).len() > 0,
        chosen(points, marks, n)[0] == points[0],
    decreases n,
{
    if n > 1 {
        lemma_first_chosen(points, marks, (n - 1) as nat);
    } else {
        assert(chosen(points, marks, 0) =~= Seq::<WorldPoint>::empty());
    }
}

/// Whether a point is a marked one of a line.
pub open spec fn is_marked(points: Seq<WorldPoint>, marks: Seq<bool>, p: WorldPoint) -> bool {
    exists|i: int| 0 <= i < points.len() && #[trigger] marks[i] && points[i] == p
}

/// What is left of a line are its marked points: every one of them stays, and
/// nothing else does.
pub proof fn marked_points_stay(points: Seq<WorldPoint>, marks: Seq<bool>, n: nat)
    requires
        n <= points.len(),
        marks.len() == points.len(),
    ensures
        forall|i: int|
            0 <= i < n && #[trigger] marks[i] ==> chosen(points, marks, n).contains(points[i]),
        forall|k: int|
            0 <= k < chosen(points, marks, n).len() ==> is_marked(
                points,
                marks,
                #[trigger] chosen(points, marks, n)[k],
            ),
    decreases n,
{
    if n > 0 {
        marked_points_stay(points, marks, (n - 1) as nat);
        let before = chosen(points, marks, (n - 1) as nat);
        let after = chosen(points, marks, n);
        assert forall|i: int| 0 <= i < n && #[trigger] marks[i] implies after.contains(
            points[i],
        ) by {
            if i < n - 1 {
                let k = choose|k: int| 0 <= k < before.len() && before[k] == points[i];
                assert(after[k] == points[i]);
            } else {
                assert(after[before.len() as int] == points[i]);
            }
        }
        assert forall|k: int| 0 <= k < after.len() implies is_marked(
            points,
            marks,
            #[trigger] after[k],
        ) by {
            if k < before.len() {
                assert(after[k] == before[k]);
            } else {
                assert(marks[n - 1] && points[n - 1] == after[k]);
            }
        }
    }
}

/// A fresh start leads to the ends and what stays between them.
pub proof fn simplification_starts_from_the_ends(
    s: Simplification,
    far: spec_fn(int, int) -> Option<int>,
    k: int,
)
    requires
        s.kept().len() >= 3,
        forall|j: int|
            0 <= j < s.kept().len() ==> s.kept()[j] == (j == 0 || j == s.kept().len() - 1),
        s.open_stretches() == seq![(0usize, (s.kept().len() - 1) as usize)],
        s.kept().len() <= usize::MAX,
    ensures
        s.in_the_end(far, k) <==> k == 0 || k == s.kept().len() - 1 || stays(
            far,
            0,
            s.kept().len() - 1,
            k,
        ),
{
    assert(s.open_stretches()[0] == (0usize, (s.kept().len() - 1) as usize));
}

/// Whether a distance is more than none and more than what is put up with.
pub open spec fn strays(distance: Double, limit: Double) -> bool {
    (Double { bits: 0 }).below(distance) && limit.below(distance)
}

/// Whether the `k`-th distance is the first of the largest ones.
pub open spec fn leads(distances: Seq<Double>, k: int) -> bool {
    &&& forall|j: int| 0 <= j < distances.len() ==> !distances[k].below(#[trigger] distances[j])
    &&& forall|j: int|
        0 <= j < k ==> (#[trigger] distances[j]).nan() || distances[j].below(distances[k])
}

/// The point of a stretch that strays the most, where one strays too far. The
/// distances are those of the points behind `first`, squared as the limit is.
pub fn farthest_point(first: usize, distances: &[Double], limit: Double) -> (r: Option<usize>)
    requires
        first + distances.len() < usize::MAX,
    ensures
        match r {
            Some(i) => {
                &&& first < i <= first + distances.len()
                &&& strays(distances@[i - first - 1], limit)
                &&& leads(distances@, i - first - 1)
            },
            None => forall|k: int|
                0 <= k < distances.len() ==> !strays(#[trigger] distances@[k], limit),
        },
{
    let zero = Double::from_bits(0);
    let mut most = zero;
    let mut at: Option<usize> = None;
    let mut k: usize = 0;
    while k < distances.len()
        invariant
            k <= distances.len(),
            zero == (Double { bits: 0 }),
            match at {
                Some(i) => i < k && most == distances@[i as int] && zero.below(most),
                None => most == zero,
            },
            forall|j: int|
                0 <= j < k ==> !most.below(#[trigger] distances@[j]),
            at matches Some(i) ==> forall|j: int|
                0 <= j < i ==> (#[trigger] distances@[j]).nan() || distances@[j].below(most),
        decreases distances.len() - k,
    {
        if most.lt(distances[k]) {
            most = distances[k];
            at = Some(k);
        }
        k = k + 1;
    }
    match at {
        Some(i) => {
            if limit.lt(most) {
                Some(first + 1 + i)
            } else {
                None
            }
        },
        None => None,
    }
}

/// How many points lie inside the open stretches.
pub open spec fn open_points(stretches: Seq<(usize, usize)>) -> int
    decreases stretches.len(),
{
    if stretches.len() == 0 {
        0
    } else {
        open_points(stretches.drop_last()) + (stretches.last().1 - stretches.last().0 - 1)
    }
}

/// Settling a stretch leaves fewer points open, so a line is thinned out after
/// as many steps as it has points at the most.
pub proof fn settling_comes_to_an_end(
    s: Simplification,
    after: Simplification,
    farthest: Option<usize>,
)
    requires
        s.well_formed(),
        s.open_stretches().len() > 0,
        farthest matches Some(i) ==> s.open_stretches().last().0 < i
            < s.open_stretches().last().1,
        match farthest {
            None => after.open_stretches() == s.open_stretches().drop_last(),
            Some(i) => {
                let (a, b) = s.open_stretches().last();
                after.open_stretches() == s.open_stretches().drop_last() + stretch(i, b)
                    + stretch(a, i)
            },
        },
    ensures
        0 <= open_points(after.open_stretches()) < open_points(s.open_stretches()),
{
    let rest = s.open_stretches().drop_last();
    let (a, b) = s.open_stretches().last();
    assert(s.open_stretches()[s.open_stretches().len() - 1] == (a, b));
    assert forall|i: int| 0 <= i < rest.len() implies (#[trigger] rest[i]).0 + 1 < rest[i].1 by {
        assert(rest[i] == s.open_stretches()[i]);
    }
    lemma_open_points(rest);
    if let Some(i) = farthest {
        lemma_one_more(rest, i, b);
        lemma_one_more(rest + stretch(i, b), a, i);
    }
}

proof fn lemma_open_points(stretches: Seq<(usize, usize)>)
    requires
        forall|i: int|
            0 <= i < stretches.len() ==> (#[trigger] stretches[i]).0 + 1 < stretches[i].1,
    ensures
        open_points(stretches) >= 0,
    decreases stretches.len(),
{
    if stretches.len() > 0 {
        let rest = stretches.drop_last();
        assert forall|i: int| 0 <= i < rest.len() implies (#[trigger] rest[i]).0 + 1
            < rest[i].1 by {
            assert(rest[i] == stretches[i]);
        }
        lemma_open_points(rest);
        assert(stretches[stretches.len() - 1] == stretches.last());
    }
}

proof fn lemma_one_more(stretches: Seq<(usize, usize)>, a: usize, b: usize)
    requires
        a < b,
    ensures
        open_points(stretches + stretch(a, b)) == open_points(stretches) + (b - a - 1),
{
    let all = stretches + stretch(a, b);
    if a + 1 < b {
        assert(all.drop_last() =~= stretches);
        assert(all.last() == (a, b));
    } else {
        assert(all =~= stretches);
    }
}

/// Settling a stretch by `far` does not change what stays in the end, so a
/// line is thinned out as `far` prescribes in whatever order the stretches are
/// settled.
pub proof fn settling_follows_the_rule(
    s: Simplification,
    after: Simplification,
    far: spec_fn(int, int) -> Option<int>,
    farthest: Option<usize>,
    k: int,
)
    requires
        s.well_formed(),
        s.open_stretches().len() > 0,
        ({
            let (a, b) = s.open_stretches().last();
            &&& farthest matches Some(i) ==> a < i < b && far(a as int, b as int) == Some(i as int)
            &&& farthest is None ==> far(a as int, b as int) is None
        }),
        match farthest {
            None => after.kept() == s.kept() && after.open_stretches()
                == s.open_stretches().drop_last(),
            Some(i) => {
                let (a, b) = s.open_stretches().last();
                &&& after.kept() == s.kept().update(i as int, true)
                &&& after.open_stretches() == s.open_stretches().drop_last() + stretch(i, b)
                    + stretch(a, i)
            },
        },
    ensures
        after.in_the_end(far, k) <==> s.in_the_end(far, k),
{
    let n = s.open_stretches().len() - 1;
    let (a, b) = s.open_stretches().last();
    let old_p = s.open_stretches();
    let new_p = after.open_stretches();
    assert(old_p[n] == (a, b));
    assert forall|i: int| 0 <= i < n implies #[trigger] old_p[i] == new_p[i] by {}
    match farthest {
        None => {
            assert(!stays(far, a as int, b as int, k));
            if s.in_the_end(far, k) && !(0 <= k < s.kept().len() && s.kept()[k]) {
                let i = choose|i: int|
                    0 <= i < old_p.len() && stays(
                        far,
                        (#[trigger] old_p[i]).0 as int,
                        old_p[i].1 as int,
                        k,
                    );
                assert(i < n);
                assert(stays(far, new_p[i].0 as int, new_p[i].1 as int, k));
            }
            if after.in_the_end(far, k) && !(0 <= k < s.kept().len() && s.kept()[k]) {
                let i = choose|i: int|
                    0 <= i < new_p.len() && stays(
                        far,
                        (#[trigger] new_p[i]).0 as int,
                        new_p[i].1 as int,
                        k,
                    );
                assert(stays(far, old_p[i].0 as int, old_p[i].1 as int, k));
            }
        },
        Some(m) => {
            let right = stretch(m, b);
            let left = stretch(a, m);
            assert(stays(far, a as int, b as int, k) <==> k == m || stays(
                far,
                a as int,
                m as int,
                k,
            ) || stays(far, m as int, b as int, k));
            if s.in_the_end(far, k) && !(0 <= k < after.kept().len() && after.kept()[k]) {
                let i = choose|i: int|
                    0 <= i < old_p.len() && stays(
                        far,
                        (#[trigger] old_p[i]).0 as int,
                        old_p[i].1 as int,
                        k,
                    );
                if i < n {
                    assert(stays(far, new_p[i].0 as int, new_p[i].1 as int, k));
                } else if stays(far, m as int, b as int, k) {
                    assert(right.len() == 1);
                    assert(new_p[n] == (m, b));
                    assert(stays(far, new_p[n].0 as int, new_p[n].1 as int, k));
                } else {
                    assert(stays(far, a as int, m as int, k));
                    assert(left.len() == 1);
                    assert(new_p[n + right.len()] == (a, m));
                    assert(stays(
                        far,
                        new_p[n + right.len()].0 as int,
                        new_p[n + right.len()].1 as int,
                        k,
                    ));
                }
            }
            if after.in_the_end(far, k) && !(0 <= k < s.kept().len() && s.kept()[k]) {
                assert(stays(far, old_p[n].0 as int, old_p[n].1 as int, k) ==> s.in_the_end(
                    far,
                    k,
                ));
                if !(k == m) {
                    let i = choose|i: int|
                        0 <= i < new_p.len() && stays(
                            far,
                            (#[trigger] new_p[i]).0 as int,
                            new_p[i].1 as int,
                            k,
                        );
                    if i < n {
                        assert(stays(far, old_p[i].0 as int, old_p[i].1 as int, k));
                    } else if i < n + right.len() {
                        assert(new_p[i] == (m, b));
                    } else {
                        assert(new_p[i] == (a, m));
                    }
                }
            }
        },
    }
}

/// Whether a number is neither infinite nor undefined.
pub open spec fn finite(d: Double) -> bool {
    d.magnitude() < 0x7ff0_0000_0000_0000
}

/// Whether two numbers are written the same in a file: the same number, or
/// both none.
pub open spec fn same_written(a: Double, b: Double) -> bool {
    a == b || (!finite(a) && !finite(b))
}

pub open spec fn same_point(a: WorldPoint, b: WorldPoint) -> bool {
    same_written(a.x, b.x) && same_written(a.y, b.y)
}

pub open spec fn same_box(a: Bounds, b: Bounds) -> bool {
    same_written(a.min_x, b.min_x) && same_written(a.max_x, b.max_x) && same_written(
        a.min_y,
        b.min_y,
    ) && same_written(a.max_y, b.max_y)
}

/// Whether two lines are written the same in a file.
pub open spec fn same_line(a: BorderLine, b: BorderLine) -> bool {
    &&& a.kind == b.kind
    &&& a.points.len() == b.points.len()
    &&& forall|i: int| 0 <= i < a.points.len() ==> same_point(#[trigger] a.points[i], b.points[i])
    &&& same_box(a.bbox, b.bbox)
}

fn is_finite(d: Double) -> (r: bool)
    ensures
        r == finite(d),
{
    d.bits % 0x8000_0000_0000_0000 < 0x7ff0_0000_0000_0000
}

fn is_same_written(a: Double, b: Double) -> (r: bool)
    ensures
        r == same_written(a, b),
{
    a.bits == b.bits || (!is_finite(a) && !is_finite(b))
}

fn is_same_line(a: &BorderLine, b: &BorderLine) -> (r: bool)
    ensures
        r == same_line(*a, *b),
{
    if a.kind != b.kind || a.points.len() != b.points.len() {
        return false;
    }
    let mut i: usize = 0;
    while i < a.points.len()
        invariant
            i <= a.points.len(),
            a.points.len() == b.points.len(),
            forall|k: int| 0 <= k < i ==> same_point(#[trigger] a.points[k], b.points[k]),
        decreases a.points.len() - i,
    {
        let p = a.points[i];
        let q = b.points[i];
        if !(is_same_written(p.x, q.x) && is_same_written(p.y, q.y)) {
            assert(!same_point(a.points[i as int], b.points[i as int]));
            return false;
        }
        i = i + 1;
    }
    is_same_written(a.bbox.min_x, b.bbox.min_x) && is_same_written(a.bbox.max_x, b.bbox.max_x)
        && is_same_written(a.bbox.min_y, b.bbox.min_y) && is_same_written(
        a.bbox.max_y,
        b.bbox.max_y,
    )
}

/// Whether a line stands among the first `n`.
pub open spec fn seen(lines: Seq<BorderLine>, l: BorderLine, n: int) -> bool {
    exists|j: int| 0 <= j < n && same_line(#[trigger] lines[j], l)
}

/// The places of the lines among the first `n` that no earlier line equals.
pub open spec fn unique_places(lines: Seq<BorderLine>, n: nat) -> Seq<int>
    decreases n,
{
    if n == 0 {
        Seq::empty()
    } else {
        let before = unique_places(lines, (n - 1) as nat);
        if seen(lines, lines[n - 1], n - 1) {
            before
        } else {
            before.push(n - 1)
        }
    }
}

/// How many shelves lines are sorted into to find repeated ones.
const SHELVES: usize = 65_521;

/// What counts of a number when lines are sorted into shelves.
spec fn mark(d: Double) -> int {
    if finite(d) {
        d.bits as int
    } else {
        0
    }
}

/// The shelf of a line, by its first point and the number of its points. Lines
/// that are written the same have the same one.
spec fn shelf(l: BorderLine) -> int {
    if l.points.len() == 0 {
        0
    } else {
        (mark(l.points[0].x) % 65_521 + mark(l.points[0].y) % 65_521 + l.points.len() as int
            % 65_521) % 65_521
    }
}

fn mark_of(d: Double) -> (m: u64)
    ensures
        m == mark(d),
{
    if is_finite(d) {
        d.bits
    } else {
        0
    }
}

fn shelf_of(l: &BorderLine) -> (s: usize)
    ensures
        s == shelf(*l),
        s < SHELVES,
{
    if l.points.len() == 0 {
        return 0;
    }
    let p = l.points[0];
    let sum: u64 = mark_of(p.x) % 65_521 + mark_of(p.y) % 65_521 + l.points.len() as u64 % 65_521;
    (sum % 65_521) as usize
}

proof fn lemma_same_shelf(a: BorderLine, b: BorderLine)
    requires
        same_line(a, b),
    ensures
        shelf(a) == shelf(b),
{
    if a.points.len() > 0 {
        assert(same_point(a.points[0], b.points[0]));
    }
}

/// Whether a shelf holds the places of the lines among the first `n` that
/// belong there.
spec fn shelved(lines: Seq<BorderLine>, places: Seq<usize>, s: int, n: int) -> bool {
    &&& forall|k: int| 0 <= k < places.len() ==> (#[trigger] places[k]) < n
    &&& forall|j: int|
        0 <= j < n && shelf(#[trigger] lines[j]) == s ==> places.contains(j as usize)
}

/// Whether the line at `i` equals one of the lines at `places`, which are
/// earlier ones.
fn is_repeated(lines: &[BorderLine], places: &Vec<usize>, i: usize) -> (r: bool)
    requires
        i < lines.len(),
        shelved(lines@, places@, shelf(lines@[i as int]), i as int),
    ensures
        r == seen(lines@, lines@[i as int], i as int),
{
    let mut k: usize = 0;
    while k < places.len()
        invariant
            k <= places.len(),
            i < lines.len(),
            forall|k: int| 0 <= k < places.len() ==> (#[trigger] places@[k]) < i,
            forall|m: int|
                0 <= m < k ==> !same_line(
                    lines@[(#[trigger] places@[m]) as int],
                    lines@[i as int],
                ),
        decreases places.len() - k,
    {
        let j: usize = places[k];
        if is_same_line(&lines[j], &lines[i]) {
            assert(same_line(lines@[j as int], lines@[i as int]));
            return true;
        }
        k = k + 1;
    }
    assert forall|j: int| 0 <= j < i implies !same_line(#[trigger] lines@[j], lines@[i as int]) by {
        if same_line(lines@[j], lines@[i as int]) {
            lemma_same_shelf(lines@[j], lines@[i as int]);
            let m = places@.index_of(j as usize);
            assert(places@[m] == j as usize);
        }
    }
    false
}

fn empty_shelves() -> (r: Vec<Vec<usize>>)
    ensures
        r.len() == SHELVES,
        forall|s: int| 0 <= s < SHELVES ==> (#[trigger] r[s])@.len() == 0,
{
    let mut r: Vec<Vec<usize>> = Vec::new();
    while r.len() < SHELVES
        invariant
            r.len() <= SHELVES,
            forall|s: int| 0 <= s < r.len() ==> (#[trigger] r[s])@.len() == 0,
        decreases SHELVES - r.len(),
    {
        r.push(Vec::new());
    }
    r
}

/// The places of the lines that no earlier line equals.
pub fn unique_lines(lines: &[BorderLine]) -> (r: Vec<usize>)
    ensures
        r@.map_values(|i: usize| i as int) == unique_places(lines@, lines@.len()),
{
    let ghost view = |i: usize| i as int;
    let mut r: Vec<usize> = Vec::new();
    assert(r@.map_values(view) =~= Seq::<int>::empty());
    let mut shelves = empty_shelves();
    let mut i: usize = 0;
    while i < lines.len()
        invariant
            i <= lines.len(),
            view == (|i: usize| i as int),
            r@.map_values(view) == unique_places(lines@, i as nat),
            shelves.len() == SHELVES,
            forall|s: int|
                0 <= s < SHELVES ==> shelved(lines@, (#[trigger] shelves@[s])@, s, i as int),
        decreases lines.len() - i,
    {
        let s: usize = shelf_of(&lines[i]);
        if !is_repeated(lines, &shelves[s], i) {
            let ghost r0 = r@;
            r.push(i);
            assert(r@.map_values(view) =~= r0.map_values(view).push(i as int));
        }
        let ghost before = shelves@;
        shelves[s].push(i);
        proof {
            assert forall|t: int| 0 <= t < SHELVES implies shelved(
                lines@,
                (#[trigger] shelves@[t])@,
                t,
                i + 1,
            ) by {
                let old_places = before[t]@;
                let places = shelves@[t]@;
                assert(shelved(lines@, old_places, t, i as int));
                assert(t == s ==> places == old_places.push(i));
                assert(t != s ==> places == old_places);
                assert forall|j: int| 0 <= j < i + 1 && shelf(#[trigger] lines@[j]) == t implies places.contains(
                    j as usize,
                ) by {
                    if j < i {
                        let m = old_places.index_of(j as usize);
                        assert(places[m] == j as usize);
                    } else {
                        assert(places[old_places.len() as int] == i);
                    }
                }
            }
        }
        i = i + 1;
    }
    r
}

/// Leaving out repeated lines loses nothing: each line is written the same as
/// one that is kept.
pub proof fn every_line_is_represented(lines: Seq<BorderLine>, n: nat, i: int)
    requires
        n <= lines.len(),
        0 <= i < n,
    ensures
        exists|k: int|
            unique_places(lines, n).contains(k) && 0 <= k <= i && same_line(
                #[trigger] lines[k],
                lines[i],
            ),
    decreases i, n,
{
    if seen(lines, lines[i], i) {
        let j = choose|j: int| 0 <= j < i && same_line(#[trigger] lines[j], lines[i]);
        every_line_is_represented(lines, n, j);
        let k = choose|k: int|
            unique_places(lines, n).contains(k) && 0 <= k <= j && same_line(
                #[trigger] lines[k],
                lines[j],
            );
        assert(same_line(lines[k], lines[i])) by {
            assert forall|p: int| 0 <= p < lines[k].points.len() implies same_point(
                #[trigger] lines[k].points[p],
                lines[i].points[p],
            ) by {
                assert(same_point(lines[k].points[p], lines[j].points[p]));
                assert(same_point(lines[j].points[p], lines[i].points[p]));
            }
        }
    } else {
        lemma_first_is_unique(lines, n, i);
        assert(same_line(lines[i], lines[i]));
    }
}

proof fn lemma_first_is_unique(lines: Seq<BorderLine>, n: nat, i: int)
    requires
        n <= lines.len(),
        0 <= i < n,
        !seen(lines, lines[i], i),
    ensures
        unique_places(lines, n).contains(i),
    decreases n,
{
    let before = unique_places(lines, (n - 1) as nat);
    if i == n - 1 {
        assert(unique_places(lines, n)[before.len() as int] == i);
    } else {
        lemma_first_is_unique(lines, (n - 1) as nat, i);
        let p = choose|p: int| 0 <= p < before.len() && before[p] == i;
        assert(unique_places(lines, n)[p] == i);
    }
}

} // verus!
