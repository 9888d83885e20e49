//! Where the user is: competing position reports, and the one that counts.

use serde_json::Value;
use std::time::Duration;
use vstd::arithmetic::power2::pow2;
use vstd::prelude::*;
use vstd::string::*;

use crate::config::{EUROPE_LAT_BITS, EUROPE_LON_BITS, EUROPE_ZOOM_BITS};
use crate::double::Double;
use crate::geo::{GeoPoint, MAX_LAT_BITS, MIN_LAT_BITS};
use crate::json::{
    as_number, field_of, get, get_field, has_record_shape, is_null, is_record, json, json_of_text,
    parse_text, JsonModel,
};
use crate::layers::LayerStatus;
use crate::retry::{at_most, duration_nanos, RetryPolicy};
use crate::text::same_text;

verus! {

/// Where a report came from.
#[derive(Debug, Clone, Copy, PartialEq, Eq, Structural)]
pub enum LocationSource {
    /// A guess from the network address.
    Ip,
    /// The operating system's location service.
    Platform,
    /// Given by the user; nothing overrides it.
    Manual,
}

impl LocationSource {
    /// A better source has a higher rank.
    pub open spec fn rank(self) -> int {
        match self {
            LocationSource::Ip => 0,
            LocationSource::Platform => 1,
            LocationSource::Manual => 2,
        }
    }

    /// The name to show, with the location service's own name for `Platform`.
    pub open spec fn name(self, platform: Seq<char>) -> Seq<char> {
        match self {
            LocationSource::Ip => "IP"@,
            LocationSource::Platform => platform,
            LocationSource::Manual => "CLI"@,
        }
    }

    pub fn label(self, platform: &'static str) -> (s: &'static str)
        ensures
            s@ == self.name(platform@),
    {
        match self {
            LocationSource::Ip => "IP",
            LocationSource::Platform => platform,
            LocationSource::Manual => "CLI",
        }
    }

    fn better_than(self, other: LocationSource) -> (r: bool)
        ensures
            r == (self.rank() > other.rank()),
    {
        match (self, other) {
            (LocationSource::Manual, LocationSource::Manual) => false,
            (LocationSource::Manual, _) => true,
            (LocationSource::Platform, LocationSource::Ip) => true,
            _ => false,
        }
    }
}

/// A position report.
#[derive(Debug, Clone, Copy, PartialEq, Eq)]
pub struct LocationFix {
    pub point: GeoPoint,
    /// The radius in metres within which the position lies, none where it is
    /// not known.
    pub accuracy_m: Option<Double>,
    pub source: LocationSource,
    /// When it was made, in nanoseconds since the epoch.
    pub at: u64,
}

/// The number 1000.
pub const KILOMETRE_BITS: u64 = 0x408f_4000_0000_0000;

impl LocationFix {
    pub fn new(
        point: GeoPoint,
        accuracy_m: Option<Double>,
        source: LocationSource,
        now: u64,
    ) -> (f: LocationFix)
        ensures
            f == (LocationFix { point, accuracy_m, source, at: now }),
    {
        LocationFix { point, accuracy_m, source, at: now }
    }

    /// Whether the radius is shown in kilometres.
    pub open spec fn coarse(self) -> bool {
        self.accuracy_m matches Some(a) && (Double { bits: KILOMETRE_BITS }).at_most(a)
    }

    pub fn is_coarse(&self) -> (r: bool)
        ensures
            r == self.coarse(),
    {
        match self.accuracy_m {
            Some(a) => Double::from_bits(KILOMETRE_BITS).le(a),
            None => false,
        }
    }

    /// A summary for the status line. `radius` is the radius written as a
    /// whole number of its unit.
    pub fn label(&self, platform: &'static str, radius: &str) -> (s: String)
        ensures
            s@ == self.source.name(platform@) + if self.accuracy_m is None {
                Seq::<char>::empty()
            } else if self.coarse() {
                " \u{b1}"@ + radius@ + " km"@
            } else {
                " \u{b1}"@ + radius@ + " m"@
            },
    {
        let name = self.source.label(platform).to_string();
        if self.accuracy_m.is_none() {
            assert(name@ + Seq::<char>::empty() =~= name@);
            return name;
        }
        let unit = if self.is_coarse() {
            " km"
        } else {
            " m"
        };
        let s = name.concat(" \u{b1}").concat(radius).concat(unit);
        assert(s@ =~= name@ + (" \u{b1}"@ + radius@ + unit@));
        s
    }
}

/// A report of this age is stale: five minutes.
pub const STALE_AFTER: u64 = 300_000_000_000;

/// Whether a report is better than another: a known radius beats an unknown
/// one, a smaller radius a larger one, and where they tie the better source
/// wins.
pub open spec fn better(candidate: LocationFix, incumbent: LocationFix) -> bool {
    match (candidate.accuracy_m, incumbent.accuracy_m) {
        (Some(a), Some(b)) => a.below(b) || (a.at_most(b) && b.at_most(a)
            && candidate.source.rank() > incumbent.source.rank()),
        (Some(_), None) => true,
        (None, Some(_)) => false,
        (None, None) => candidate.source.rank() > incumbent.source.rank(),
    }
}

pub fn is_better(candidate: &LocationFix, incumbent: &LocationFix) -> (r: bool)
    ensures
        r == better(*candidate, *incumbent),
{
    match (candidate.accuracy_m, incumbent.accuracy_m) {
        (Some(a), Some(b)) => {
            a.lt(b) || (a.le(b) && b.le(a) && candidate.source.better_than(incumbent.source))
        },
        (Some(_), None) => true,
        (None, Some(_)) => false,
        (None, None) => candidate.source.better_than(incumbent.source),
    }
}

/// Picks the report that counts.
#[derive(Debug)]
pub struct LocationArbiter {
    current: Option<LocationFix>,
}

/// Whether a report becomes the one that counts. One that the user gave stays;
/// otherwise the newcomer has to come from the user or from the same source,
/// find a stale one, or be better.
pub open spec fn accepted(current: Option<LocationFix>, fix: LocationFix) -> bool {
    match current {
        None => true,
        Some(cur) => cur.source != LocationSource::Manual && (fix.source == LocationSource::Manual
            || fix.at - cur.at > STALE_AFTER || fix.source == cur.source || better(fix, cur)),
    }
}

impl LocationArbiter {
    pub closed spec fn holds(self) -> Option<LocationFix> {
        self.current
    }

    pub fn new() -> (a: LocationArbiter)
        ensures
            a.holds() is None,
    {
        LocationArbiter { current: None }
    }

    pub fn current(&self) -> (r: Option<LocationFix>)
        ensures
            r == self.holds(),
    {
        self.current
    }

    /// Offer a report. Returns whether it became the one that counts.
    pub fn offer(&mut self, fix: LocationFix) -> (accept: bool)
        ensures
            accept == accepted(old(self).holds(), fix),
            final(self).holds() == if accept {
                Some(fix)
            } else {
                old(self).holds()
            },
    {
        let accept = match self.current {
            None => true,
            Some(cur) => {
                if cur.source == LocationSource::Manual {
                    false
                } else if fix.source == LocationSource::Manual {
                    true
                } else {
                    let stale = fix.at >= cur.at && fix.at - cur.at > STALE_AFTER;
                    stale || fix.source == cur.source || is_better(&fix, &cur)
                }
            },
        };
        if accept {
            self.current = Some(fix);
        }
        accept
    }
}

/// A report from the user is never overridden.
pub proof fn manual_fix_is_never_overridden_by_any(cur: LocationFix, fix: LocationFix)
    requires
        cur.source == LocationSource::Manual,
    ensures
        !accepted(Some(cur), fix),
{
}

/// A guess by network address never displaces a fresh report of the location
/// service that is as accurate.
pub proof fn equal_accuracy_goes_to_the_better_source(ip: LocationFix, platform: LocationFix)
    requires
        ip.source == LocationSource::Ip,
        platform.source == LocationSource::Platform,
        ip.accuracy_m == platform.accuracy_m,
        ip.accuracy_m matches Some(a) ==> !a.nan(),
        ip.at - platform.at <= STALE_AFTER,
    ensures
        accepted(Some(ip), platform),
        !accepted(Some(platform), ip),
{
}

/// Of two reports with known radii the one with the smaller is better, a known
/// radius beats an unknown one, and of two reports at most one is better.
pub proof fn the_smaller_radius_is_better(a: LocationFix, b: LocationFix)
    ensures
        (a.accuracy_m matches Some(r) && (b.accuracy_m matches Some(q) && r.below(q))) ==> better(
            a,
            b,
        ),
        a.accuracy_m is Some && b.accuracy_m is None ==> better(a, b),
        better(a, b) ==> !better(b, a),
{
}

/// A report that is too old gives way to any other, unless the user gave it.
pub proof fn stale_reports_give_way(cur: LocationFix, fix: LocationFix)
    requires
        cur.source != LocationSource::Manual,
        fix.at > cur.at + STALE_AFTER,
    ensures
        accepted(Some(cur), fix),
{
}

/// The radius assumed for a guess by network address: 25 kilometres.
pub const ASSUMED_ACCURACY_BITS: u64 = 0x40d8_6a00_0000_0000;

/// The latitudes 90 and -90.
pub const NORTH_BITS: u64 = 0x4056_8000_0000_0000;

pub const SOUTH_BITS: u64 = 0xc056_8000_0000_0000;

/// The longitudes 180 and -180.
pub const EAST_BITS: u64 = 0x4066_8000_0000_0000;

pub const WEST_BITS: u64 = 0xc066_8000_0000_0000;

/// Whether coordinates lie on the globe.
pub open spec fn on_globe(lat: Double, lon: Double) -> bool {
    &&& (Double { bits: SOUTH_BITS }).at_most(lat)
    &&& lat.at_most(Double { bits: NORTH_BITS })
    &&& (Double { bits: WEST_BITS }).at_most(lon)
    &&& lon.at_most(Double { bits: EAST_BITS })
}

pub fn is_on_globe(lat: Double, lon: Double) -> (r: bool)
    ensures
        r == on_globe(lat, lon),
{
    Double::from_bits(SOUTH_BITS).le(lat) && lat.le(Double::from_bits(NORTH_BITS))
        && Double::from_bits(WEST_BITS).le(lon) && lon.le(Double::from_bits(EAST_BITS))
}

/// Why a response gives no position.
#[derive(Debug, Clone, Copy, PartialEq, Eq, Structural)]
pub enum IpError {
    /// It is no JSON object, or a coordinate is not a number.
    Malformed,
    /// It has no coordinates.
    NoCoordinates,
    /// The coordinates do not lie on the globe.
    OutOfRange,
}

/// A coordinate of a response, under either of its names or at its place: an
/// error where it is there twice or is no number, none where it is not there or
/// null.
pub open spec fn coordinate(
    v: JsonModel,
    short: Seq<char>,
    long: Seq<char>,
    place: int,
) -> Result<Option<Double>, IpError> {
    match (field_of(v, short, place), v.at(long)) {
        (Some(_), Some(_)) => Err(IpError::Malformed),
        (Some(c), None) => amount(c),
        (None, Some(c)) => amount(c),
        (None, None) => Ok(None),
    }
}

/// A number that may be null.
pub open spec fn amount(v: JsonModel) -> Result<Option<Double>, IpError> {
    match v {
        JsonModel::Null => Ok(None),
        JsonModel::Number(bits, _) => Ok(Some(Double { bits })),
        _ => Err(IpError::Malformed),
    }
}

/// The position that a response gives.
pub open spec fn ip_position(v: Option<JsonModel>) -> Result<GeoPoint, IpError> {
    match v {
        Some(o) => if !is_record(o, 2, 2) {
            Err(IpError::Malformed)
        } else {
            match (coordinate(o, "lat"@, "latitude"@, 0), coordinate(o, "lon"@, "longitude"@, 1)) {
                (Ok(Some(lat)), Ok(Some(lon))) => if on_globe(lat, lon) {
                    Ok(GeoPoint::bounded(lon, lat))
                } else {
                    Err(IpError::OutOfRange)
                },
                (Ok(_), Ok(_)) => Err(IpError::NoCoordinates),
                _ => Err(IpError::Malformed),
            }
        },
        None => Err(IpError::Malformed),
    }
}

fn read_amount(v: &Value) -> (r: Result<Option<Double>, IpError>)
    ensures
        r == amount(json(*v)),
{
    if is_null(v) {
        return Ok(None);
    }
    match as_number(v) {
        Some(n) => Ok(Some(n)),
        None => Err(IpError::Malformed),
    }
}

fn read_coordinate(v: &Value, short: &str, long: &str, place: usize) -> (r: Result<
    Option<Double>,
    IpError,
>)
    ensures
        r == coordinate(json(*v), short@, long@, place as int),
{
    match (get_field(v, short, place), get(v, long)) {
        (Some(_), Some(_)) => Err(IpError::Malformed),
        (Some(c), None) => read_amount(c),
        (None, Some(c)) => read_amount(c),
        (None, None) => Ok(None),
    }
}

/// Read a position from a response, at `now`.
pub fn parse_ip(body: &str, now: u64) -> (r: Result<LocationFix, IpError>)
    ensures
        match ip_position(json_of_text(body@)) {
            Ok(point) => r == Ok::<LocationFix, IpError>(
                LocationFix {
                    point,
                    accuracy_m: Some(Double { bits: ASSUMED_ACCURACY_BITS }),
                    source: LocationSource::Ip,
                    at: now,
                },
            ),
            Err(e) => r == Err::<LocationFix, IpError>(e),
        },
{
    let v = match parse_text(body) {
        Some(v) => v,
        None => {
            return Err(IpError::Malformed);
        },
    };
    if !has_record_shape(&v, 2, 2) {
        return Err(IpError::Malformed);
    }
    match (
        read_coordinate(&v, "lat", "latitude", 0),
        read_coordinate(&v, "lon", "longitude", 1),
    ) {
        (Ok(Some(lat)), Ok(Some(lon))) => {
            if is_on_globe(lat, lon) {
                Ok(
                    LocationFix::new(
                        GeoPoint::new(lon, lat),
                        Some(Double::from_bits(ASSUMED_ACCURACY_BITS)),
                        LocationSource::Ip,
                        now,
                    ),
                )
            } else {
                Err(IpError::OutOfRange)
            }
        },
        (Ok(_), Ok(_)) => Err(IpError::NoCoordinates),
        _ => Err(IpError::Malformed),
    }
}

/// A response with coordinates on the map is a report there, whichever of their
/// two names the latitude and the longitude bear.
pub proof fn responses_are_read_by_name(v: JsonModel, y: u64, x: u64)
    requires
        v is Object,
        (v.at("lat"@) matches Some(JsonModel::Number(b, _)) && b == y && v.at("latitude"@) is None)
            || (v.at("latitude"@) matches Some(JsonModel::Number(b, _)) && b == y && v.at(
            "lat"@,
        ) is None),
        (v.at("lon"@) matches Some(JsonModel::Number(b, _)) && b == x && v.at("longitude"@) is None)
            || (v.at("longitude"@) matches Some(JsonModel::Number(b, _)) && b == x && v.at(
            "lon"@,
        ) is None),
    ensures
        ({
            let lat = Double { bits: y };
            let lon = Double { bits: x };
            &&& on_globe(lat, lon) && (Double { bits: MIN_LAT_BITS }).at_most(lat) && lat.at_most(
                (Double { bits: MAX_LAT_BITS }),
            ) ==> (ip_position(Some(v)) matches Ok(p) && p.lat.bits == y && p.lon.bits == x)
            &&& !on_globe(lat, lon) ==> ip_position(Some(v)) == Err::<GeoPoint, _>(
                IpError::OutOfRange,
            )
        }),
{
}

/// After a lookup that worked, the next one comes in half an hour.
pub const REFRESH_INTERVAL: u64 = 1_800_000_000_000;

/// After one that failed, first in a minute.
pub const RETRY_INTERVAL: u64 = 60_000_000_000;

/// The lookups by network address: how many failed in a row.
#[derive(Debug)]
pub struct IpPolling {
    pub failures: u32,
}

/// How long to wait after so many failures in a row.
pub open spec fn retry_wait(failures: nat) -> nat {
    at_most(RETRY_INTERVAL as nat * pow2(failures), REFRESH_INTERVAL as nat)
}

impl IpPolling {
    pub fn new() -> (p: IpPolling)
        ensures
            p.failures == 0,
    {
        IpPolling { failures: 0 }
    }

    /// How long to wait after a lookup: the wait doubles with each failure, up
    /// to the interval of those that work.
    pub fn after_lookup(&mut self, found: bool) -> (wait: Duration)
        ensures
            duration_nanos(wait) == if found {
                REFRESH_INTERVAL as nat
            } else {
                retry_wait(old(self).failures as nat)
            },
            final(self).failures == if found {
                0
            } else if old(self).failures == u32::MAX {
                u32::MAX as int
            } else {
                old(self).failures + 1
            },
    {
        if found {
            self.failures = 0;
            return Duration::new(1800, 0);
        }
        let policy = RetryPolicy::new(Duration::new(60, 0), Duration::new(1800, 0), None);
        let wait = policy.delay_for(self.failures);
        self.failures = self.failures.saturating_add(1);
        wait
    }
}

/// What the map knows of the user's place, and the name shown with it.
#[derive(Debug)]
pub struct LocationState {
    pub arbiter: LocationArbiter,
    /// The point that was last looked up.
    pub label_at: Option<GeoPoint>,
    pub label: Option<String>,
    pub looking_up: bool,
    pub status: LayerStatus,
}

/// What follows a report.
#[derive(Debug, Clone, Copy, PartialEq, Eq)]
pub struct LocationStep {
    /// The report became the one that counts.
    pub changed: bool,
    /// A point whose name has to be looked up.
    pub lookup: Option<GeoPoint>,
    /// A lookup under way has to be aborted first.
    pub abort: bool,
}

impl LocationState {
    pub fn new(arbiter: LocationArbiter) -> (s: LocationState)
        ensures
            s.arbiter == arbiter,
            s.label_at is None,
            s.label is None,
            !s.looking_up,
            s.status is Idle,
    {
        LocationState {
            arbiter,
            label_at: None,
            label: None,
            looking_up: false,
            status: LayerStatus::Idle,
        }
    }

    pub fn location_fix(&self) -> (r: Option<LocationFix>)
        ensures
            r == self.arbiter.holds(),
    {
        self.arbiter.current()
    }

    /// Have a point's name looked up, unless one close by was. `near` says
    /// whether the point last looked up lies within two kilometres.
    pub fn request_location_label(&mut self, point: GeoPoint, near: bool) -> (step: LocationStep)
        ensures
            final(self).arbiter == old(self).arbiter,
            final(self).label == old(self).label,
            final(self).status == old(self).status,
            !step.changed,
            if old(self).label_at is Some && near {
                &&& final(self).label_at == old(self).label_at
                &&& final(self).looking_up == old(self).looking_up
                &&& step.lookup is None
                &&& !step.abort
            } else {
                &&& final(self).label_at == Some(point)
                &&& final(self).looking_up
                &&& step.lookup == Some(point)
                &&& step.abort == old(self).looking_up
            },
    {
        if self.label_at.is_some() && near {
            return LocationStep { changed: false, lookup: None, abort: false };
        }
        let abort = self.looking_up;
        self.label_at = Some(point);
        self.looking_up = true;
        LocationStep { changed: false, lookup: Some(point), abort }
    }

    /// Take in a report. One that does not count changes nothing.
    pub fn drain_location_update(&mut self, fix: LocationFix, near: bool) -> (step: LocationStep)
        ensures
            step.changed == accepted(old(self).arbiter.holds(), fix),
            final(self).label == old(self).label,
            !step.changed ==> final(self).arbiter.holds() == old(self).arbiter.holds()
                && final(self).label_at == old(self).label_at && final(self).looking_up
                == old(self).looking_up && final(self).status == old(self).status
                && step.lookup is None && !step.abort,
            step.changed ==> {
                &&& final(self).arbiter.holds() == Some(fix)
                &&& final(self).status is Ready
                &&& if old(self).label_at is Some && near {
                    &&& final(self).label_at == old(self).label_at
                    &&& final(self).looking_up == old(self).looking_up
                    &&& step.lookup is None
                    &&& !step.abort
                } else {
                    &&& final(self).label_at == Some(fix.point)
                    &&& final(self).looking_up
                    &&& step.lookup == Some(fix.point)
                    &&& step.abort == old(self).looking_up
                }
            },
    {
        if !self.arbiter.offer(fix) {
            return LocationStep { changed: false, lookup: None, abort: false };
        }
        self.status = LayerStatus::Ready;
        let mut step = self.request_location_label(fix.point, near);
        step.changed = true;
        step
    }

    /// Take in a name. One for a point that is no longer asked about is
    /// ignored. Returns whether the name shown changed.
    pub fn drain_pin_label(&mut self, point: GeoPoint, name: Option<String>) -> (changed: bool)
        ensures
            final(self).arbiter == old(self).arbiter,
            final(self).label_at == old(self).label_at,
            final(self).looking_up == old(self).looking_up,
            final(self).status == old(self).status,
            changed == (same_place(old(self).label_at, point) && shown(old(self).label) != shown(
                name,
            )),
            shown(final(self).label) == if same_place(old(self).label_at, point) {
                shown(name)
            } else {
                shown(old(self).label)
            },
    {
        match self.label_at {
            Some(p) => {
                if !(p.lon.le(point.lon) && point.lon.le(p.lon) && p.lat.le(point.lat)
                    && point.lat.le(p.lat)) {
                    return false;
                }
            },
            None => {
                return false;
            },
        }
        let same = match (&self.label, &name) {
            (Some(a), Some(b)) => same_text(a.as_str(), b.as_str()),
            (None, None) => true,
            _ => false,
        };
        if same {
            return false;
        }
        self.label = name;
        true
    }
}

/// The name that is shown, if any.
pub open spec fn shown(label: Option<String>) -> Option<Seq<char>> {
    match label {
        Some(s) => Some(s@),
        None => None,
    }
}

/// Whether a point is the one asked about.
pub open spec fn same_place(asked: Option<GeoPoint>, p: GeoPoint) -> bool {
    match asked {
        Some(a) => a.lon.at_most(p.lon) && p.lon.at_most(a.lon) && a.lat.at_most(p.lat)
            && p.lat.at_most(a.lat),
        None => false,
    }
}

/// The number 5, the zoom for a position.
pub const FIX_ZOOM_BITS: u64 = 0x4014_0000_0000_0000;

/// Where a view starts.
#[derive(Debug, Clone, Copy, PartialEq, Eq, Structural)]
pub struct StartView {
    pub lat: Double,
    pub lon: Double,
    pub zoom: Double,
}

/// Where the map starts and what is asked about the position.
#[derive(Debug, Clone, Copy, PartialEq, Eq)]
pub struct StartPlan {
    pub view: StartView,
    /// The position that the user gave.
    pub manual: Option<LocationFix>,
    /// The location services are asked, and the first answer moves the view.
    pub ask: bool,
}

pub open spec fn or_zoom(zoom: Option<Double>, bits: u64) -> Double {
    match zoom {
        Some(z) => z,
        None => Double { bits },
    }
}

/// How the program starts. Coordinates of the user settle everything; without
/// them the view starts over Europe, and the location services are asked
/// unless the user declined.
pub fn initial_viewport(
    lat: Option<Double>,
    lon: Option<Double>,
    zoom: Option<Double>,
    no_location: bool,
    now: u64,
) -> (plan: StartPlan)
    ensures
        match (lat, lon) {
            (Some(lat), Some(lon)) => {
                &&& plan.view == (StartView { lat, lon, zoom: or_zoom(zoom, FIX_ZOOM_BITS) })
                &&& plan.manual == Some(
                    LocationFix {
                        point: GeoPoint::bounded(lon, lat),
                        accuracy_m: None,
                        source: LocationSource::Manual,
                        at: now,
                    },
                )
                &&& !plan.ask
            },
            _ => {
                &&& plan.view == (StartView {
                    lat: Double { bits: EUROPE_LAT_BITS },
                    lon: Double { bits: EUROPE_LON_BITS },
                    zoom: or_zoom(zoom, EUROPE_ZOOM_BITS),
                })
                &&& plan.manual is None
                &&& plan.ask == !no_location
            },
        },
{
    match (lat, lon) {
        (Some(lat), Some(lon)) => {
            let z = match zoom {
                Some(z) => z,
                None => Double::from_bits(FIX_ZOOM_BITS),
            };
            let fix = LocationFix::new(GeoPoint::new(lon, lat), None, LocationSource::Manual, now);
            StartPlan { view: StartView { lat, lon, zoom: z }, manual: Some(fix), ask: false }
        },
        _ => {
            let z = match zoom {
                Some(z) => z,
                None => Double::from_bits(EUROPE_ZOOM_BITS),
            };
            StartPlan {
                view: StartView {
                    lat: Double::from_bits(EUROPE_LAT_BITS),
                    lon: Double::from_bits(EUROPE_LON_BITS),
                    zoom: z,
                },
                manual: None,
                ask: !no_location,
            }
        },
    }
}

/// Where the first report moves the view, however accurate it is.
pub fn viewport_for_fix(fix: &LocationFix, cli_zoom: Option<Double>) -> (v: StartView)
    ensures
        v == (StartView {
            lat: fix.point.lat,
            lon: fix.point.lon,
            zoom: or_zoom(cli_zoom, FIX_ZOOM_BITS),
        }),
{
    let zoom = match cli_zoom {
        Some(z) => z,
        None => Double::from_bits(FIX_ZOOM_BITS),
    };
    StartView { lat: fix.point.lat, lon: fix.point.lon, zoom }
}

} // verus!
