//! The observations in view: what is kept of them, and the list of stations.

use vstd::prelude::*;

use crate::backdrop::{are_points_of, stations_to_points};
use crate::budget::{cooldown, counting, RateLimit, RequestBudget, BUDGET_WINDOW};
use crate::features::{duplicate_points, ObservationPoint};
use crate::geo::{Bounds, WorldPoint};
use crate::stations::{listed_stations, parse_locations, station_models, AreaFetch, StationInfo};
use crate::tasks::{elapsed, since};

verus! {

/// Whether data for one area serves another: data without bounds serves
/// everything, and nothing else serves a request without bounds.
pub open spec fn covered(have: Option<Bounds>, want: Option<Bounds>) -> bool {
    match (have, want) {
        (None, _) => true,
        (Some(h), Some(w)) => h.covers(w),
        (Some(_), None) => false,
    }
}

pub fn bounds_covered(have: Option<Bounds>, want: Option<Bounds>) -> (r: bool)
    ensures
        r == covered(have, want),
{
    match (have, want) {
        (None, _) => true,
        (Some(h), Some(w)) => h.contains(w),
        (Some(_), None) => false,
    }
}

/// Readings in view are used for ten minutes, in seconds.
pub const VIEWPORT_FRESH_SECS: u64 = 600;

/// The same on the program's clock.
pub const VIEWPORT_DATA_TTL: u64 = 600_000_000_000;

/// The readings of an area and when they came, on the program's clock.
#[derive(Debug)]
pub struct MemCacheEntry {
    pub fetched_at: u64,
    pub bounds: Option<Bounds>,
    pub points: Vec<ObservationPoint>,
    /// Seconds since the epoch.
    pub updated_at: Option<i64>,
}

/// What is saved of the readings of an area.
#[derive(Debug)]
pub struct DiskCacheEntry {
    pub bounds: Option<Bounds>,
    pub points: Vec<ObservationPoint>,
}

/// The readings in view that are kept.
#[derive(Debug)]
pub struct ViewportCache {
    pub entry: Option<MemCacheEntry>,
}

/// Whether the cache holds the given readings.
pub open spec fn holds(
    c: ViewportCache,
    points: Seq<ObservationPoint>,
    bounds: Option<Bounds>,
    now: u64,
    updated_at: Option<i64>,
) -> bool {
    c.entry matches Some(e) && e.fetched_at == now && e.bounds == bounds && e.points@ == points
        && e.updated_at == updated_at
}

impl ViewportCache {
    /// Whether the kept readings serve a request at `now`.
    pub open spec fn serves(self, want: Option<Bounds>, now: u64) -> bool {
        self.entry matches Some(e) && since(e.fetched_at, now) < VIEWPORT_DATA_TTL && covered(
            e.bounds,
            want,
        )
    }

    pub fn new() -> (c: ViewportCache)
        ensures
            c.entry is None,
    {
        ViewportCache { entry: None }
    }

    /// The kept readings, where they serve a request.
    pub fn from_memory(&self, want: Option<Bounds>, now: u64) -> (r: Option<Vec<ObservationPoint>>)
        ensures
            r is Some <==> self.serves(want, now),
            r matches Some(points) ==> points@ == (self.entry->0).points@,
    {
        match &self.entry {
            Some(e) => {
                if elapsed(e.fetched_at, now) < VIEWPORT_DATA_TTL && bounds_covered(e.bounds, want) {
                    Some(duplicate_points(&e.points))
                } else {
                    None
                }
            },
            None => None,
        }
    }

    /// The saved readings, where they are fresh and serve a request; they are
    /// kept then.
    pub fn from_disk(
        &mut self,
        saved: DiskCacheEntry,
        age_secs: u64,
        want: Option<Bounds>,
        now: u64,
    ) -> (r: Option<Vec<ObservationPoint>>)
        ensures
            r is Some <==> age_secs < VIEWPORT_FRESH_SECS && covered(saved.bounds, want),
            r matches Some(points) ==> points@ == saved.points@ && holds(
                *final(self),
                saved.points@,
                want,
                now,
                None,
            ),
            r is None ==> *final(self) == *old(self),
    {
        if age_secs >= VIEWPORT_FRESH_SECS || !bounds_covered(saved.bounds, want) {
            return None;
        }
        let points = duplicate_points(&saved.points);
        self.entry = Some(
            MemCacheEntry {
                fetched_at: now,
                bounds: want,
                points: saved.points,
                updated_at: None,
            },
        );
        Some(points)
    }

    /// Keep what the gateway gave, where it gave something. Returns what has
    /// to be saved.
    pub fn from_gateway(
        &mut self,
        points: &Vec<ObservationPoint>,
        want: Option<Bounds>,
        now: u64,
        secs: i64,
    ) -> (save: Option<DiskCacheEntry>)
        ensures
            save is Some <==> points.len() > 0,
            save matches Some(s) ==> s.bounds == want && s.points@ == points@ && holds(
                *final(self),
                points@,
                want,
                now,
                Some(secs),
            ),
            save is None ==> *final(self) == *old(self),
    {
        if points.len() == 0 {
            return None;
        }
        self.entry = Some(
            MemCacheEntry {
                fetched_at: now,
                bounds: want,
                points: duplicate_points(points),
                updated_at: Some(secs),
            },
        );
        Some(DiskCacheEntry { bounds: want, points: duplicate_points(points) })
    }
}

/// What was kept for a request serves it again for ten minutes.
pub proof fn kept_readings_are_reused(
    c: ViewportCache,
    points: Seq<ObservationPoint>,
    want: Bounds,
    now: u64,
    later: u64,
    updated_at: Option<i64>,
)
    requires
        holds(c, points, Some(want), now, updated_at),
        now <= later,
        later - now < VIEWPORT_DATA_TTL,
        !want.min_x.nan(),
        !want.max_x.nan(),
        !want.min_y.nan(),
        !want.max_y.nan(),
    ensures
        c.serves(Some(want), later),
{
}

/// Readings that are ten minutes old, or of an area that does not cover the one
/// that is asked for, are not used again.
pub proof fn readings_serve_what_they_cover(
    c: ViewportCache,
    e: MemCacheEntry,
    have: Bounds,
    want: Bounds,
    now: u64,
)
    requires
        c.entry == Some(e),
        e.bounds == Some(have),
        e.fetched_at <= now,
    ensures
        c.serves(Some(want), now) ==> now - e.fetched_at < 600 * 1_000_000_000,
        c.serves(Some(want), now) ==> have.min_x.at_most(want.min_x) && want.max_x.at_most(
            have.max_x,
        ) && have.min_y.at_most(want.min_y) && want.max_y.at_most(have.max_y),
        !c.serves(None, now),
{
}

/// The reports from a query of the view; a refusal is remembered.
pub fn area_points(
    fetch: AreaFetch,
    names: &Vec<StationInfo>,
    worlds: &Vec<WorldPoint>,
    limit: &mut RateLimit,
    now: u64,
) -> (r: Vec<ObservationPoint>)
    requires
        now <= crate::radar::CLOCK_LIMIT,
        fetch matches AreaFetch::Stations(s) ==> worlds.len() == s.len(),
    ensures
        match fetch {
            AreaFetch::Stations(s) => are_points_of(r@, s@, names@, worlds@),
            _ => r.len() == 0,
        },
        final(limit).until == match fetch {
            AreaFetch::RateLimited(reset) => Some(
                (now + cooldown(reset) * 1_000_000_000) as u64,
            ),
            _ => old(limit).until,
        },
{
    match fetch {
        AreaFetch::Stations(s) => stations_to_points(s, names, worlds),
        AreaFetch::RateLimited(reset) => {
            limit.refused(reset, now);
            Vec::new()
        },
        _ => Vec::new(),
    }
}

/// The list of stations as it is saved.
#[derive(Debug)]
pub struct StationListEntry {
    pub bounds: Option<Bounds>,
    pub stations: Vec<StationInfo>,
}

/// The list of stations is used for a day, in seconds.
pub const STATION_LIST_SECS: u64 = 86_400;

/// Whether a saved list can be used as it is: it is fresh, and it lists the
/// stations of no area in particular.
pub open spec fn is_current(e: StationListEntry, age_secs: u64) -> bool {
    age_secs < STATION_LIST_SECS && e.bounds is None && e.stations.len() > 0
}

/// The names that are known without asking: those of a list that can be used
/// as it is.
pub fn known_stations(saved: Option<StationListEntry>, age_secs: u64) -> (r: Vec<StationInfo>)
    ensures
        r@ == match saved {
            Some(e) => if is_current(e, age_secs) {
                e.stations@
            } else {
                Seq::empty()
            },
            None => Seq::empty(),
        },
{
    match saved {
        Some(e) => {
            if age_secs < STATION_LIST_SECS && e.bounds.is_none() && e.stations.len() > 0 {
                e.stations
            } else {
                Vec::new()
            }
        },
        None => Vec::new(),
    }
}

/// How the list of stations is had.
#[derive(Debug)]
pub enum StationListStep {
    /// Here it is.
    Have(Vec<StationInfo>),
    /// It has to be asked for; this is what there is in case that fails.
    Ask(Vec<StationInfo>),
}

/// The stations of a saved list of any age.
pub open spec fn saved_stations(saved: Option<StationListEntry>) -> Seq<StationInfo> {
    match saved {
        Some(e) => e.stations@,
        None => Seq::empty(),
    }
}

/// Start to get the list of stations. A list that can be used as it is costs
/// nothing; otherwise a request is taken from the budget before it is made,
/// and where none is left the saved list has to do.
pub fn station_list_start(
    saved: Option<StationListEntry>,
    age_secs: u64,
    budget: &mut RequestBudget,
    limit: u32,
    now: u64,
) -> (step: StationListStep)
    ensures
        ({
            let current = saved matches Some(e) && is_current(e, age_secs);
            let spent = counting(old(budget).spent@, now, BUDGET_WINDOW);
            let left = spent.len() < limit;
            &&& step is Ask <==> !current && left
            &&& step matches StationListStep::Have(s) ==> s@ == saved_stations(saved)
            &&& step matches StationListStep::Ask(s) ==> s@ == saved_stations(saved)
            &&& final(budget).spent@ == if current {
                old(budget).spent@
            } else if left {
                spent.push(now)
            } else {
                spent
            }
        }),
{
    let mut stations: Vec<StationInfo> = Vec::new();
    if let Some(e) = saved {
        if age_secs < STATION_LIST_SECS && e.bounds.is_none() && e.stations.len() > 0 {
            return StationListStep::Have(e.stations);
        }
        stations = e.stations;
    }
    if budget.try_spend(limit, BUDGET_WINDOW, now) {
        StationListStep::Ask(stations)
    } else {
        StationListStep::Have(stations)
    }
}

/// Take in the answer to the request for the list; none stands for a request
/// that failed. A list without a station is of no use. Returns the stations,
/// and whether they have to be saved.
pub fn station_list_end(body: Option<&str>, fallback: Vec<StationInfo>) -> (r: (
    Vec<StationInfo>,
    bool,
))
    ensures
        r.1 == (body matches Some(t) && (listed_stations(t@) matches Some(s) && s.len() > 0)),
        r.1 ==> listed_stations(body->0@) == Some(station_models(r.0@)),
        !r.1 ==> r.0@ == fallback@,
{
    match body {
        Some(text) => match parse_locations(text) {
            Some(s) => {
                assert(station_models(s@).len() == s.len());
                if s.len() > 0 {
                    (s, true)
                } else {
                    (fallback, false)
                }
            },
            None => (fallback, false),
        },
        None => (fallback, false),
    }
}

} // verus!
