//! Configuration, saved state, and edits of the configuration file.

use toml_edit::Item;
use vstd::prelude::*;
use vstd::string::*;

use crate::document::{
    below, document_comments, document_entries, document_headings, document_keys, document_prints,
    document_text, extends, grows, is_inline, is_table, is_table_key, item_around, item_comments,
    item_entries, item_keys, item_kind, item_prints, mild, parse_document, put, reachable, replaced,
    root_item, rooted, state_at, table_at, toml_comments, toml_entries, toml_headings, toml_keys,
    within, within_in_turn, within_itself, KeyState, NewEntry, TomlEntries, TomlEntry, MOST_KEYS,
};
use crate::double::Double;
use crate::text::{blank, chars_of, is_blank, trim, trimmed};

verus! {

/// Requests per hour that the gateway grants a caller without a key.
pub const ANON_HOURLY_QUOTA: u32 = 50;

/// Requests per hour that the gateway grants a caller with a key.
pub const AUTH_HOURLY_QUOTA: u32 = 500;

/// Latitude of the first view, 46.05.
pub const EUROPE_LAT_BITS: u64 = 0x4047_0666_6666_6666;

/// Longitude of the first view, 14.51.
pub const EUROPE_LON_BITS: u64 = 0x402d_051e_b851_eb85;

/// Zoom of the first view, 4.
pub const EUROPE_ZOOM_BITS: u64 = 0x4010_0000_0000_0000;

#[derive(Debug)]
pub struct Config {
    pub viewport: ViewportConfig,
    pub meteogate: MeteoGateConfig,
    pub meteoalarm: MeteoAlarmConfig,
    pub eumetnet: EumetnetConfig,
    pub location: LocationConfig,
    pub geocode: GeocodeConfig,
}

/// Place-name search.
#[derive(Debug)]
pub struct GeocodeConfig {
    pub endpoint: String,
}

/// How the program finds out where it is.
#[derive(Debug)]
pub struct LocationConfig {
    /// Whether a coarse position may be asked for by network address.
    pub ip_fallback: bool,
    pub ip_endpoint: String,
}

/// The view on first launch.
#[derive(Debug, Clone, Copy, PartialEq, Eq, Structural)]
pub struct ViewportConfig {
    pub lat: Double,
    pub lon: Double,
    pub zoom: Double,
}

/// Radar data access.
#[derive(Debug)]
pub struct MeteoGateConfig {
    pub api_key: String,
    pub s3_endpoint: String,
    pub s3_bucket: String,
}

/// Weather warnings.
#[derive(Debug)]
pub struct MeteoAlarmConfig {
    pub token: String,
    pub api_endpoint: String,
    pub mqtt_broker: String,
}

/// Surface observations.
#[derive(Debug)]
pub struct EumetnetConfig {
    pub surface_endpoint: String,
    pub api_key: String,
}

impl EumetnetConfig {
    /// Requests allowed per hour; a key of nothing but white space is none.
    pub fn hourly_quota(&self) -> (q: u32)
        ensures
            q == if blank(self.api_key@) {
                ANON_HOURLY_QUOTA
            } else {
                AUTH_HOURLY_QUOTA
            },
    {
        if is_blank(self.api_key.as_str()) {
            ANON_HOURLY_QUOTA
        } else {
            AUTH_HOURLY_QUOTA
        }
    }
}

/// Whether a changed configuration needs a new connection: only the key
/// matters, without the white space around it.
pub fn eumetnet_rebuild_needed(old_config: &EumetnetConfig, new_config: &EumetnetConfig) -> (r:
    bool)
    ensures
        r == (trimmed(old_config.api_key@) != trimmed(new_config.api_key@)),
{
    trim(old_config.api_key.as_str()) != trim(new_config.api_key.as_str())
}

pub const GEOCODE_ENDPOINT: &'static str = "https://nominatim.openstreetmap.org/search";

pub const IP_ENDPOINT: &'static str = "https://ipwho.is/";

pub const S3_ENDPOINT: &'static str = "https://s3.waw3-1.cloudferro.com";

pub const S3_BUCKET: &'static str = "openradar-24h";

pub const METEOALARM_ENDPOINT: &'static str = "https://api.meteoalarm.org/edr/v1";

pub const METEOALARM_BROKER: &'static str = "mqtts://api.meteoalarm.org";

pub const SURFACE_ENDPOINT: &'static str = "https://api.meteogate.eu/eu-eumetnet-surface-observations";

pub fn default_geocode_endpoint() -> (s: String)
    ensures
        s@ == GEOCODE_ENDPOINT@,
{
    GEOCODE_ENDPOINT.to_string()
}

pub fn default_ip_fallback() -> (b: bool)
    ensures
        b,
{
    true
}

pub fn default_ip_endpoint() -> (s: String)
    ensures
        s@ == IP_ENDPOINT@,
{
    IP_ENDPOINT.to_string()
}

pub fn default_s3_endpoint() -> (s: String)
    ensures
        s@ == S3_ENDPOINT@,
{
    S3_ENDPOINT.to_string()
}

pub fn default_s3_bucket() -> (s: String)
    ensures
        s@ == S3_BUCKET@,
{
    S3_BUCKET.to_string()
}

pub fn default_meteoalarm_endpoint() -> (s: String)
    ensures
        s@ == METEOALARM_ENDPOINT@,
{
    METEOALARM_ENDPOINT.to_string()
}

pub fn default_meteoalarm_broker() -> (s: String)
    ensures
        s@ == METEOALARM_BROKER@,
{
    METEOALARM_BROKER.to_string()
}

pub fn default_surface_obs_endpoint() -> (s: String)
    ensures
        s@ == SURFACE_ENDPOINT@,
{
    SURFACE_ENDPOINT.to_string()
}

impl Default for ViewportConfig {
    fn default() -> (c: ViewportConfig)
        ensures
            c.lat.bits == EUROPE_LAT_BITS,
            c.lon.bits == EUROPE_LON_BITS,
            c.zoom.bits == EUROPE_ZOOM_BITS,
    {
        ViewportConfig {
            lat: Double::from_bits(EUROPE_LAT_BITS),
            lon: Double::from_bits(EUROPE_LON_BITS),
            zoom: Double::from_bits(EUROPE_ZOOM_BITS),
        }
    }
}

impl Default for MeteoAlarmConfig {
    fn default() -> (c: MeteoAlarmConfig)
        ensures
            c.token@ == Seq::<char>::empty(),
            c.api_endpoint@ == METEOALARM_ENDPOINT@,
            c.mqtt_broker@ == METEOALARM_BROKER@,
    {
        MeteoAlarmConfig {
            token: String::new(),
            api_endpoint: default_meteoalarm_endpoint(),
            mqtt_broker: default_meteoalarm_broker(),
        }
    }
}

impl Default for MeteoGateConfig {
    fn default() -> (c: MeteoGateConfig)
        ensures
            c.api_key@ == Seq::<char>::empty(),
            c.s3_endpoint@ == S3_ENDPOINT@,
            c.s3_bucket@ == S3_BUCKET@,
    {
        MeteoGateConfig {
            api_key: String::new(),
            s3_endpoint: default_s3_endpoint(),
            s3_bucket: default_s3_bucket(),
        }
    }
}

impl Default for EumetnetConfig {
    fn default() -> (c: EumetnetConfig)
        ensures
            c.surface_endpoint@ == SURFACE_ENDPOINT@,
            c.api_key@ == Seq::<char>::empty(),
    {
        EumetnetConfig {
            surface_endpoint: default_surface_obs_endpoint(),
            api_key: String::new(),
        }
    }
}

impl Default for LocationConfig {
    fn default() -> (c: LocationConfig)
        ensures
            c.ip_fallback,
            c.ip_endpoint@ == IP_ENDPOINT@,
    {
        LocationConfig { ip_fallback: default_ip_fallback(), ip_endpoint: default_ip_endpoint() }
    }
}

impl Default for GeocodeConfig {
    fn default() -> (c: GeocodeConfig)
        ensures
            c.endpoint@ == GEOCODE_ENDPOINT@,
    {
        GeocodeConfig { endpoint: default_geocode_endpoint() }
    }
}

impl Default for Config {
    fn default() -> (c: Config)
        ensures
            c.viewport.lat.bits == EUROPE_LAT_BITS,
            c.viewport.lon.bits == EUROPE_LON_BITS,
            c.viewport.zoom.bits == EUROPE_ZOOM_BITS,
            c.meteogate.api_key@ == Seq::<char>::empty(),
            c.meteogate.s3_endpoint@ == S3_ENDPOINT@,
            c.meteogate.s3_bucket@ == S3_BUCKET@,
            c.meteoalarm.token@ == Seq::<char>::empty(),
            c.meteoalarm.api_endpoint@ == METEOALARM_ENDPOINT@,
            c.meteoalarm.mqtt_broker@ == METEOALARM_BROKER@,
            c.eumetnet.surface_endpoint@ == SURFACE_ENDPOINT@,
            c.eumetnet.api_key@ == Seq::<char>::empty(),
            c.location.ip_fallback,
            c.location.ip_endpoint@ == IP_ENDPOINT@,
            c.geocode.endpoint@ == GEOCODE_ENDPOINT@,
    {
        Config {
            viewport: ViewportConfig::default(),
            meteogate: MeteoGateConfig::default(),
            meteoalarm: MeteoAlarmConfig::default(),
            eumetnet: EumetnetConfig::default(),
            location: LocationConfig::default(),
            geocode: GeocodeConfig::default(),
        }
    }
}

pub const TEXT_HEAD: &'static str = "# \u{2500}\u{2500} front configuration \u{2500}\u{2500}\u{2500}\u{2500}\u{2500}\u{2500}\u{2500}\u{2500}\u{2500}\u{2500}\u{2500}\u{2500}\u{2500}\u{2500}\u{2500}\u{2500}\u{2500}\u{2500}\u{2500}\u{2500}\u{2500}\u{2500}\u{2500}\u{2500}\u{2500}\u{2500}\u{2500}\u{2500}\u{2500}\u{2500}\u{2500}\u{2500}\u{2500}\u{2500}\u{2500}\u{2500}\u{2500}\u{2500}\u{2500}\u{2500}\u{2500}\u{2500}\n\
# This file was auto-generated with default values.\n\
# Remove or adjust anything you do not need.\n\
# API keys / tokens left empty \u{2014} the program will use anonymous access.\n\
\n\
[viewport]\n\
# Default viewport centre when no saved state exists (degrees, WGS\u{2011}84).\n\
lat = ";

pub const TEXT_LON: &'static str = "\n\
lon = ";

pub const TEXT_ZOOM: &'static str = "\n\
zoom = ";

pub const TEXT_RADAR_KEY: &'static str = "\n\
\n\
[meteogate]\n\
# API key for MeteoGate ORD REST API  (https://devportal.meteogate.eu/).\n\
# Leave empty for anonymous access (S3 bucket does not need auth).\n\
api_key = \"";

pub const TEXT_S3_ENDPOINT: &'static str = "\"\n\
# S3-compatible object store endpoint.\n\
s3_endpoint = \"";

pub const TEXT_S3_BUCKET: &'static str = "\"\n\
# S3 bucket for the 24\u{2011}hour radar data cache.\n\
s3_bucket = \"";

pub const TEXT_TOKEN: &'static str = "\"\n\
\n\
[meteoalarm]\n\
# Authentication token for MeteoAlarm API.  Leave empty for anonymous.\n\
token = \"";

pub const TEXT_ALARM_ENDPOINT: &'static str = "\"\n\
# EDR API base endpoint.\n\
api_endpoint = \"";

pub const TEXT_BROKER: &'static str = "\"\n\
# MQTT broker URL for live warning updates.\n\
mqtt_broker = \"";

pub const TEXT_SURFACE: &'static str = "\"\n\
\n\
[eumetnet]\n\
# REST endpoint for surface observations.\n\
surface_endpoint = \"";

pub const TEXT_SURFACE_KEY: &'static str = "\"\n\
#\n\
# \u{2500}\u{2500} MeteoGate API key \u{2500}\u{2500}\u{2500}\u{2500}\u{2500}\u{2500}\u{2500}\u{2500}\u{2500}\u{2500}\u{2500}\u{2500}\u{2500}\u{2500}\u{2500}\u{2500}\u{2500}\u{2500}\u{2500}\u{2500}\u{2500}\u{2500}\u{2500}\u{2500}\u{2500}\u{2500}\u{2500}\u{2500}\u{2500}\u{2500}\u{2500}\u{2500}\u{2500}\u{2500}\u{2500}\u{2500}\u{2500}\u{2500}\u{2500}\u{2500}\u{2500}\u{2500}\u{2500}\u{2500}\n\
# Surface observations go through the MeteoGate API gateway, which enforces a\n\
# request quota per client.  The published defaults are:\n\
#\n\
#     anonymous       10 req/s (burst 20),  50 requests per hour\n\
#     with an API key 60 req/s (burst 100), 500 requests per hour\n\
#\n\
# front budgets itself against whichever quota applies, so anonymous use works\n\
# \u{2014} observations simply refresh less often and prioritise the area you are\n\
# looking at.  A key lifts that considerably.\n\
#\n\
# To get one:\n\
#   1. Register an account at https://devportal.meteogate.eu/\n\
#   2. Create an API key from the developer portal\n\
#   3. Paste it below and restart front\n\
#\n\
# The key is sent as an `apikey` header.  Leave empty for anonymous access.\n\
api_key = \"";

pub const TEXT_IP_FALLBACK: &'static str = "\"\n\
\n\
[location]\n\
# Guess the position from the network address when the operating system\n\
# gives none.\n\
ip_fallback = ";

pub const TEXT_IP_ENDPOINT: &'static str = "\n\
# Service that answers with the position of the network address.\n\
ip_endpoint = \"";

pub const TEXT_GEOCODE: &'static str = "\"\n\
\n\
[geocode]\n\
# Nominatim-compatible endpoint for the place-name search.\n\
endpoint = \"";

pub const TEXT_TAIL: &'static str = "\"\n\
";

/// A truth value as TOML writes it.
pub open spec fn truth_text(b: bool) -> Seq<char> {
    if b {
        "true"@
    } else {
        "false"@
    }
}

impl Config {
    /// The commented file that holds this configuration, with the coordinates
    /// and the zoom written as `lat`, `lon` and `zoom`.
    pub open spec fn file_text(self, lat: Seq<char>, lon: Seq<char>, zoom: Seq<char>) -> Seq<char> {
        TEXT_HEAD@
            + lat
            + TEXT_LON@
            + lon
            + TEXT_ZOOM@
            + zoom
            + TEXT_RADAR_KEY@
            + self.meteogate.api_key@
            + TEXT_S3_ENDPOINT@
            + self.meteogate.s3_endpoint@
            + TEXT_S3_BUCKET@
            + self.meteogate.s3_bucket@
            + TEXT_TOKEN@
            + self.meteoalarm.token@
            + TEXT_ALARM_ENDPOINT@
            + self.meteoalarm.api_endpoint@
            + TEXT_BROKER@
            + self.meteoalarm.mqtt_broker@
            + TEXT_SURFACE@
            + self.eumetnet.surface_endpoint@
            + TEXT_SURFACE_KEY@
            + self.eumetnet.api_key@
            + TEXT_IP_FALLBACK@
            + truth_text(self.location.ip_fallback)
            + TEXT_IP_ENDPOINT@
            + self.location.ip_endpoint@
            + TEXT_GEOCODE@
            + self.geocode.endpoint@
            + TEXT_TAIL@
    }

    pub fn default_file_text(&self, lat: &str, lon: &str, zoom: &str) -> (s: String)
        ensures
            s@ == self.file_text(lat@, lon@, zoom@),
    {
        TEXT_HEAD.to_string()
            .concat(lat)
            .concat(TEXT_LON)
            .concat(lon)
            .concat(TEXT_ZOOM)
            .concat(zoom)
            .concat(TEXT_RADAR_KEY)
            .concat(self.meteogate.api_key.as_str())
            .concat(TEXT_S3_ENDPOINT)
            .concat(self.meteogate.s3_endpoint.as_str())
            .concat(TEXT_S3_BUCKET)
            .concat(self.meteogate.s3_bucket.as_str())
            .concat(TEXT_TOKEN)
            .concat(self.meteoalarm.token.as_str())
            .concat(TEXT_ALARM_ENDPOINT)
            .concat(self.meteoalarm.api_endpoint.as_str())
            .concat(TEXT_BROKER)
            .concat(self.meteoalarm.mqtt_broker.as_str())
            .concat(TEXT_SURFACE)
            .concat(self.eumetnet.surface_endpoint.as_str())
            .concat(TEXT_SURFACE_KEY)
            .concat(self.eumetnet.api_key.as_str())
            .concat(TEXT_IP_FALLBACK)
            .concat(if self.location.ip_fallback { "true" } else { "false" })
            .concat(TEXT_IP_ENDPOINT)
            .concat(self.location.ip_endpoint.as_str())
            .concat(TEXT_GEOCODE)
            .concat(self.geocode.endpoint.as_str())
            .concat(TEXT_TAIL)
    }
}

/// A single key edit: a dotted key path and the new value.
#[derive(Debug)]
pub struct ConfigEdit {
    pub key: String,
    pub value: ConfigEditValue,
}

/// The values that the settings editor writes.
#[derive(Debug)]
pub enum ConfigEditValue {
    Str(String),
    Bool(bool),
}

pub open spec fn entry_of(v: ConfigEditValue) -> TomlEntry {
    match v {
        ConfigEditValue::Str(s) => TomlEntry::Str(s@),
        ConfigEditValue::Bool(b) => TomlEntry::Bool(b),
    }
}

/// What stands at key `k` of a table once the way to an edit leads through it:
/// the table that is there; one inside a line where something else is, or
/// where the table is itself inside a line; a table of its own otherwise.
pub open spec fn on_the_way(m: TomlEntries, k: Seq<char>, inline: bool) -> TomlEntry {
    if is_table_key(m, k) {
        m[seq![k]]
    } else if inline || m.dom().contains(seq![k]) {
        TomlEntry::Inline
    } else {
        TomlEntry::Table
    }
}

/// The entries of a table with `e` at the path `path`: what stands on the way
/// to it is made a table where it is none. `inline` says whether the table is
/// inside a line.
pub open spec fn with_entry(
    m: TomlEntries,
    inline: bool,
    path: Seq<Seq<char>>,
    e: TomlEntry,
) -> TomlEntries
    decreases path.len(),
{
    if path.len() == 0 {
        m
    } else if path.len() == 1 {
        replaced(m, path[0], e, Map::empty())
    } else {
        let way = on_the_way(m, path[0], inline);
        replaced(
            m,
            path[0],
            way,
            with_entry(below(m, path[0]), way is Inline, path.drop_first(), e),
        )
    }
}

/// Whether an edit at a path takes nothing away but single values.
pub open spec fn mild_edit(m: TomlEntries, path: Seq<Seq<char>>) -> bool
    decreases path.len(),
{
    if path.len() == 0 {
        true
    } else if path.len() == 1 {
        mild(m, path[0])
    } else {
        &&& is_table_key(m, path[0]) || mild(m, path[0])
        &&& mild_edit(below(m, path[0]), path.drop_first())
    }
}

/// The parts of a key between its dots.
pub open spec fn segments(key: Seq<char>) -> Seq<Seq<char>>
    decreases key.len(),
{
    if key.len() == 0 {
        seq![Seq::<char>::empty()]
    } else if key.last() == '.' {
        segments(key.drop_last()).push(Seq::<char>::empty())
    } else {
        let s = segments(key.drop_last());
        s.drop_last().push(s.last().push(key.last()))
    }
}

/// A dot divides a key: what stands behind the last one is its last part.
pub proof fn dots_divide_keys(a: Seq<char>, b: Seq<char>)
    requires
        forall|i: int| 0 <= i < b.len() ==> #[trigger] b[i] != '.',
    ensures
        segments(a + seq!['.'] + b) == segments(a).push(b),
    decreases b.len(),
{
    let key = a + seq!['.'] + b;
    if b.len() == 0 {
        assert(key.drop_last() =~= a);
        assert(b =~= Seq::<char>::empty());
    } else {
        let t = b.drop_last();
        assert forall|i: int| 0 <= i < t.len() implies #[trigger] t[i] != '.' by {
            assert(t[i] == b[i]);
        }
        dots_divide_keys(a, t);
        assert(key.drop_last() =~= a + seq!['.'] + t);
        assert(key.last() == b.last());
        assert(b[b.len() - 1] != '.');
        assert(t.push(b.last()) =~= b);
        assert(segments(key) =~= segments(a).push(b));
    }
}

/// The entries after a list of edits.
pub open spec fn with_edits(m: TomlEntries, edits: Seq<ConfigEdit>) -> TomlEntries
    decreases edits.len(),
{
    if edits.len() == 0 {
        m
    } else {
        let e = edits.last();
        with_entry(with_edits(m, edits.drop_last()), false, segments(e.key@), entry_of(e.value))
    }
}

/// Whether none of a list of edits takes away anything but single values.
pub open spec fn mild_edits(m: TomlEntries, edits: Seq<ConfigEdit>) -> bool
    decreases edits.len(),
{
    edits.len() > 0 ==> {
        &&& mild_edits(m, edits.drop_last())
        &&& mild_edit(with_edits(m, edits.drop_last()), segments(edits.last().key@))
    }
}

/// Whether an edit can be written: its key has not too many parts.
pub open spec fn writable(e: ConfigEdit) -> bool {
    segments(e.key@).len() <= MOST_KEYS
}

fn split_key(key: &str) -> (r: Vec<String>)
    ensures
        r@.map_values(|s: String| s@) == segments(key@),
        r.len() >= 1,
{
    let ghost views = |s: String| s@;
    let cs = chars_of(key);
    let mut done: Vec<String> = Vec::new();
    let mut part = String::new();
    let mut i: usize = 0;
    assert(cs@.take(0) =~= Seq::<char>::empty());
    assert(done@.map_values(views).push(part@) =~= seq![Seq::<char>::empty()]);
    while i < cs.len()
        invariant
            i <= cs.len(),
            views == (|s: String| s@),
            done@.map_values(views).push(part@) == segments(cs@.take(i as int)),
        decreases cs.len() - i,
    {
        let ghost t = cs@.take(i + 1);
        let ghost before = segments(cs@.take(i as int));
        assert(t.drop_last() =~= cs@.take(i as int));
        assert(t.last() == cs@[i as int]);
        assert(before.drop_last() =~= done@.map_values(views));
        assert(before.last() == part@);
        let ghost done0 = done@;
        let ghost part0 = part@;
        if cs[i] == '.' {
            done.push(part);
            part = String::new();
            assert(done@.map_values(views) =~= done0.map_values(views).push(part0));
            assert(done@.map_values(views).push(part@) =~= before.push(Seq::<char>::empty()));
        } else {
            part.push(cs[i]);
            assert(done@.map_values(views).push(part@) =~= before.drop_last().push(
                part0.push(cs@[i as int]),
            ));
        }
        i = i + 1;
    }
    assert(cs@.take(i as int) =~= key@);
    let ghost done0 = done@;
    let ghost part0 = part@;
    done.push(part);
    assert(done@.map_values(views) =~= done0.map_values(views).push(part0));
    done
}

fn is_writable(e: &ConfigEdit) -> (r: bool)
    ensures
        r == writable(*e),
{
    let parts = split_key(e.key.as_str());
    assert(parts@.map_values(|s: String| s@).len() == parts.len());
    parts.len() <= MOST_KEYS
}

/// Whether a table only grows, and the values of each table in it keep their
/// order, new ones behind.
spec fn in_order(before: Item, after: Item) -> bool {
    &&& grows(before, after)
    &&& forall|at: Seq<Seq<char>>| extends(item_keys(before, at), #[trigger] item_keys(after, at))
}

fn set_path(i: &mut Item, path: &Vec<String>, from: usize, value: &ConfigEditValue)
    requires
        is_table(item_kind(*old(i))),
        from < path.len() <= MOST_KEYS,
        item_prints(*old(i), from as nat),
    ensures
        item_kind(*final(i)) == item_kind(*old(i)),
        item_around(*final(i)) == item_around(*old(i)),
        item_prints(*final(i), from as nat),
        item_entries(*final(i)) == with_entry(
            item_entries(*old(i)),
            item_kind(*old(i)) is Inline,
            path@.map_values(|s: String| s@).skip(from as int),
            entry_of(*value),
        ),
        mild_edit(
            item_entries(*old(i)),
            path@.map_values(|s: String| s@).skip(from as int),
        ) ==> item_comments(*final(i)) == item_comments(*old(i)) && in_order(
            *old(i),
            *final(i),
        ),
    decreases path.len() - from,
{
    let ghost full = path@.map_values(|s: String| s@);
    let ghost rest = full.skip(from as int);
    let ghost m = item_entries(*i);
    let ghost inline = item_kind(*i) is Inline;
    assert(rest[0] == path@[from as int]@);
    if from + 1 == path.len() {
        match value {
            ConfigEditValue::Str(s) => put(i, path[from].as_str(), NewEntry::Str(s.as_str())),
            ConfigEditValue::Bool(b) => put(i, path[from].as_str(), NewEntry::Bool(*b)),
        }
    } else {
        assert(rest.drop_first() =~= full.skip(from + 1));
        let key = path[from].as_str();
        let ghost way = on_the_way(m, key@, inline);
        make_way(i, key);
        let ghost forced = item_entries(*i);
        let ghost mid = *i;
        let sub = table_at(i, key);
        let ghost before = *sub;
        set_path(sub, path, from + 1, value);
        proof {
            let below_key = with_entry(
                below(m, key@),
                way is Inline,
                rest.drop_first(),
                entry_of(*value),
            );
            assert(replaced(forced, key@, way, below_key) =~= replaced(m, key@, way, below_key));
            if mild_edit(m, rest) {
                assert forall|at: Seq<Seq<char>>| extends(
                    item_keys(*old(i), at),
                    #[trigger] item_keys(*i, at),
                ) by {
                    assert(extends(item_keys(*old(i), at), item_keys(mid, at)));
                    if at.len() > 0 && at[0] == key@ {
                        let inside = at.drop_first();
                        assert(seq![key@] + inside =~= at);
                        assert(item_keys(before, inside) == item_keys(mid, at));
                    }
                }
            }
        }
    }
}

/// See to it that a table stands at a key. What stands there and is none gives
/// way to one inside a line, so that the key keeps its place and the comment
/// before it.
fn make_way(i: &mut Item, key: &str)
    requires
        is_table(item_kind(*old(i))),
    ensures
        ({
            let m = item_entries(*old(i));
            let f = item_entries(*final(i));
            let way = on_the_way(m, key@, item_kind(*old(i)) is Inline);
            &&& item_kind(*final(i)) == item_kind(*old(i))
            &&& item_around(*final(i)) == item_around(*old(i))
            &&& is_table_key(f, key@)
            &&& f[seq![key@]] == way
            &&& below(f, key@) == below(m, key@)
            &&& f == m || f == replaced(m, key@, way, Map::empty())
        }),
        forall|n: nat|
            n < MOST_KEYS && #[trigger] item_prints(*old(i), n) ==> item_prints(*final(i), n),
        is_table_key(item_entries(*old(i)), key@) || mild(item_entries(*old(i)), key@)
            ==> item_comments(*final(i)) == item_comments(*old(i)) && in_order(
            *old(i),
            *final(i),
        ),
{
    let ghost m = item_entries(*i);
    match state_at(i, key) {
        KeyState::Table | KeyState::Inline => {},
        KeyState::Other => {
            put(i, key, NewEntry::Inline);
            proof {
                lemma_forced(m, key@, TomlEntry::Inline);
            }
        },
        KeyState::Missing => {
            if is_inline(i) {
                put(i, key, NewEntry::Inline);
                proof {
                    lemma_forced(m, key@, TomlEntry::Inline);
                }
            } else {
                put(i, key, NewEntry::Table);
                proof {
                    lemma_forced(m, key@, TomlEntry::Table);
                }
            }
        },
    }
}

/// Putting an empty table at a key changes nothing beside it.
proof fn lemma_forced(m: TomlEntries, k: Seq<char>, e: TomlEntry)
    requires
        !is_table_key(m, k),
        is_table(e),
    ensures
        ({
            let f = replaced(m, k, e, Map::empty());
            &&& is_table_key(f, k)
            &&& f[seq![k]] == e
            &&& below(f, k) == below(m, k)
        }),
{
    let f = replaced(m, k, e, Map::empty());
    let one = seq![k];
    assert(one[0] == k);
    assert(f.dom().contains(one));
    assert forall|p: Seq<Seq<char>>| p.len() > 0 implies !#[trigger] f.dom().contains(seq![k] + p) by {
        let q = seq![k] + p;
        assert(q[0] == k);
        assert(q.len() > 1);
    }
    assert(below(f, k) =~= below(m, k));
}

/// Why the configuration file is not changed.
#[derive(Debug, Clone, Copy, PartialEq, Eq, Structural)]
pub enum ConfigEditError {
    /// The file is no TOML.
    Malformed,
    /// An edit cannot be written as TOML that is read again.
    Unwritable,
}

/// Update the named keys of a configuration text and nothing else. Every comment
/// stays, the headings keep their order, and so do the values of each table, new
/// ones behind, unless a table or a list had to give way. A text that is no TOML is refused, and so
/// is an edit that could not be read again.
pub fn apply_config_edits(content: &str, edits: &[ConfigEdit]) -> (r: Result<
    String,
    ConfigEditError,
>)
    ensures
        match r {
            Ok(text) => {
                &&& toml_entries(content@) matches Some(m) && rooted(m)
                &&& toml_entries(text@) == Some(with_edits(toml_entries(content@)->0, edits@))
                &&& forall|i: int| 0 <= i < edits.len() ==> writable(#[trigger] edits[i])
                &&& mild_edits(toml_entries(content@)->0, edits@) ==> {
                    &&& toml_comments(text@) == toml_comments(content@)
                    &&& within(toml_headings(content@), toml_headings(text@))
                    &&& forall|at: Seq<Seq<char>>|
                        extends(toml_keys(content@, at), #[trigger] toml_keys(text@, at))
                }
            },
            Err(ConfigEditError::Malformed) => toml_entries(content@) is None,
            Err(ConfigEditError::Unwritable) => {
                &&& toml_entries(content@) is Some
                &&& exists|i: int| 0 <= i < edits.len() && !writable(#[trigger] edits[i])
            },
        },
{
    let mut doc = match parse_document(content) {
        Ok(d) => d,
        Err(_) => {
            return Err(ConfigEditError::Malformed);
        },
    };
    let ghost m = document_entries(doc);
    let mut i: usize = 0;
    assert(edits@.take(0) =~= Seq::empty());
    proof {
        within_itself(toml_headings(content@));
    }
    while i < edits.len()
        invariant
            i <= edits.len(),
            toml_entries(content@) is Some,
            toml_entries(content@) == Some(m),
            document_prints(doc),
            document_entries(doc) == with_edits(m, edits@.take(i as int)),
            mild_edits(m, edits@.take(i as int)) ==> {
                &&& document_comments(doc) == toml_comments(content@)
                &&& within(toml_headings(content@), document_headings(doc))
                &&& forall|at: Seq<Seq<char>>|
                    extends(toml_keys(content@, at), #[trigger] document_keys(doc, at))
            },
            forall|j: int| 0 <= j < i ==> writable(#[trigger] edits[j]),
        decreases edits.len() - i,
    {
        if !is_writable(&edits[i]) {
            return Err(ConfigEditError::Unwritable);
        }
        assert(edits@.take(i + 1).drop_last() =~= edits@.take(i as int));
        let path = split_key(edits[i].key.as_str());
        assert(path@.map_values(|s: String| s@).skip(0) =~= path@.map_values(|s: String| s@));
        assert(path@.map_values(|s: String| s@).len() == path.len());
        let ghost before = document_headings(doc);
        let root = root_item(&mut doc);
        set_path(root, &path, 0, &edits[i].value);
        proof {
            if mild_edits(m, edits@.take(i + 1)) {
                within_in_turn(toml_headings(content@), before, document_headings(doc));
            }
        }
        i = i + 1;
    }
    assert(edits@.take(i as int) =~= edits@);
    Ok(document_text(&doc))
}

/// An edit reads back: its key holds the value that was written.
pub proof fn edit_reads_back(m: TomlEntries, inline: bool, path: Seq<Seq<char>>, e: TomlEntry)
    requires
        path.len() > 0,
    ensures
        with_entry(m, inline, path, e).dom().contains(path),
        with_entry(m, inline, path, e)[path] == e,
    decreases path.len(),
{
    if path.len() > 1 {
        let way = on_the_way(m, path[0], inline);
        edit_reads_back(below(m, path[0]), way is Inline, path.drop_first(), e);
    }
}

/// An edit leaves every other key as it was, beside the edited one in a table
/// inside a line too. Other are all keys but those at and below the edited one
/// and those on the way to it that held no table.
pub proof fn edit_leaves_other_keys(
    m: TomlEntries,
    inline: bool,
    path: Seq<Seq<char>>,
    e: TomlEntry,
    other: Seq<Seq<char>>,
)
    requires
        path.len() > 0,
        other.len() > 0,
        !path.is_prefix_of(other),
        other.is_prefix_of(path) ==> m.dom().contains(other) && is_table(m[other]),
        rooted(m),
    ensures
        with_entry(m, inline, path, e).dom().contains(other) <==> m.dom().contains(other),
        m.dom().contains(other) ==> with_entry(m, inline, path, e)[other] == m[other],
    decreases path.len(),
{
    let k = path[0];
    let way = on_the_way(m, k, inline);
    if other[0] == k {
        assert(path.len() > 1) by {
            if path.len() == 1 {
                assert(other.subrange(0, 1) =~= path);
            }
        }
        if other.len() == 1 {
            assert(path.subrange(0, 1) =~= other);
            assert(other =~= seq![k]);
        } else {
            let sub = below(m, k);
            let p2 = path.drop_first();
            let o2 = other.drop_first();
            assert(seq![k] + o2 =~= other);
            if p2.is_prefix_of(o2) {
                assert(other.subrange(0, path.len() as int) =~= path) by {
                    assert(o2.subrange(0, p2.len() as int) == p2);
                    assert forall|i: int| 0 <= i < path.len() implies other[i] == path[i] by {
                        if i > 0 {
                            assert(o2.subrange(0, p2.len() as int)[i - 1] == p2[i - 1]);
                        }
                    }
                }
            }
            assert(m.dom().contains(other) ==> is_table_key(m, k)) by {
                if m.dom().contains(other) {
                    assert(other.take(1) =~= seq![k]);
                    assert(reachable(m, other));
                }
            }
            if o2.is_prefix_of(p2) {
                assert(path.subrange(0, other.len() as int) =~= other) by {
                    assert(p2.subrange(0, o2.len() as int) == o2);
                    assert forall|i: int| 0 <= i < other.len() implies other[i] == path[i] by {
                        if i > 0 {
                            assert(p2.subrange(0, o2.len() as int)[i - 1] == o2[i - 1]);
                        }
                    }
                }
                assert(sub.dom().contains(o2) && is_table(sub[o2]));
            }
            assert forall|p: Seq<Seq<char>>| #[trigger] sub.dom().contains(p) implies reachable(
                sub,
                p,
            ) by {
                let q = seq![k] + p;
                assert(reachable(m, q));
                assert forall|n: int| 0 < n < p.len() implies {
                    let way = #[trigger] p.take(n);
                    sub.dom().contains(way) && is_table(sub[way])
                } by {
                    assert(q.take(n + 1) =~= seq![k] + p.take(n));
                }
            }
            edit_leaves_other_keys(sub, way is Inline, p2, e, o2);
        }
    }
}

} // verus!
