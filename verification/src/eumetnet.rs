//! The provider of observations: what it keeps, what it asks the gateway for,
//! and what it makes of the answers.

use vstd::prelude::*;

use crate::backdrop::{
    are_points_of, at_most_first, allowance, backdrop_from_disk, first_restored, from_disk,
    saved_cells, saves_all, served, should_fetch_backdrop, should_fetch_viewport, stale_cells,
    AreaStep, BackdropCacheEntry, BatchPlan, CellCache, BACKDROP_HISTORY_SECS,
};
use crate::budget::{
    budget_limit, cooldown, counting, RateLimit, RequestBudget, BUDGET_WINDOW,
};
use crate::config::{EumetnetConfig, ANON_HOURLY_QUOTA, AUTH_HOURLY_QUOTA};
use crate::double::Double;
use crate::features::ObservationPoint;
use crate::geo::{Bounds, WorldPoint};
use crate::radar::CLOCK_LIMIT;
use crate::stations::{new_points, seen_after, AreaFetch, SeenIds, StationInfo};
use crate::text::{blank, is_blank, trim, trimmed};
use crate::viewport_obs::{
    area_points, covered, holds, is_current, known_stations, saved_stations, station_list_start,
    DiskCacheEntry, StationListEntry, StationListStep, ViewportCache, VIEWPORT_FRESH_SECS,
};

verus! {

/// The provider: the readings it keeps, and how often it asked.
#[derive(Debug)]
pub struct EumetnetProvider {
    pub config: EumetnetConfig,
    pub viewport: ViewportCache,
    pub cells: CellCache,
    pub limit: RateLimit,
    pub budget: RequestBudget,
    /// Whether the cells of an earlier session were taken up.
    pub backdrop_loaded: bool,
}

/// What to get for a view.
#[derive(Debug)]
pub struct ObservationsPlan {
    /// The stations whose names are known.
    pub names: Vec<StationInfo>,
    /// Whether the list of stations is to be got.
    pub list: bool,
    /// Whether the readings in view are to be got.
    pub viewport: bool,
    /// Whether the readings of the cells around the cities are to be got.
    pub backdrop: bool,
}

/// How the readings in view are had.
#[derive(Debug)]
pub enum ViewportStep {
    /// Here they are.
    Have(Vec<ObservationPoint>),
    /// The gateway is to be asked; the request is taken from the budget.
    Ask,
    /// The gateway is not asked now.
    Skip,
}

/// The requests that count at `now`.
pub open spec fn recent_requests(p: EumetnetProvider, now: u64) -> Seq<u64> {
    counting(p.budget.spent@, now, BUDGET_WINDOW)
}

/// The requests after one was asked for at `now`.
pub open spec fn requests_after(p: EumetnetProvider, now: u64) -> Seq<u64> {
    if p.may_ask(now) {
        recent_requests(p, now).push(now)
    } else {
        recent_requests(p, now)
    }
}

/// Whether saved readings serve a request.
pub open spec fn disk_serves(saved: Option<(DiskCacheEntry, u64)>, want: Option<Bounds>) -> bool {
    saved matches Some((e, age)) && age < VIEWPORT_FRESH_SECS && covered(e.bounds, want)
}

impl EumetnetProvider {
    /// How many requests it makes in an hour.
    pub open spec fn per_hour(self) -> int {
        if blank(self.config.api_key@) {
            ANON_HOURLY_QUOTA * 4 / 5
        } else {
            AUTH_HOURLY_QUOTA * 4 / 5
        }
    }

    /// Whether a request is left at `now`.
    pub open spec fn may_ask(self, now: u64) -> bool {
        recent_requests(self, now).len() < self.per_hour()
    }

    /// How many requests are left at `now`.
    pub open spec fn left(self, now: u64) -> int {
        if self.may_ask(now) {
            self.per_hour() - recent_requests(self, now).len()
        } else {
            0
        }
    }

    pub fn new(config: EumetnetConfig) -> (p: EumetnetProvider)
        ensures
            p.config == config,
            p.viewport.entry is None,
            forall|k: (u64, u64)| (#[trigger] p.cells.entry(k)) is None,
            p.limit.until is None,
            p.budget.spent@ == Seq::<u64>::empty(),
            !p.backdrop_loaded,
    {
        EumetnetProvider {
            config,
            viewport: ViewportCache::new(),
            cells: CellCache::new(),
            limit: RateLimit::new(),
            budget: RequestBudget::new(),
            backdrop_loaded: false,
        }
    }

    /// The key that a request carries, none where there is none.
    pub fn api_key(&self) -> (r: Option<String>)
        ensures
            r is None <==> blank(self.config.api_key@),
            r matches Some(k) ==> k@ == trimmed(self.config.api_key@),
    {
        if is_blank(self.config.api_key.as_str()) {
            None
        } else {
            Some(trim(self.config.api_key.as_str()))
        }
    }

    /// Take a request from the budget, where one is left.
    pub fn try_spend(&mut self, now: u64) -> (r: bool)
        ensures
            r == old(self).may_ask(now),
            final(self).budget.spent@ == requests_after(*old(self), now),
            *final(self) == (EumetnetProvider { budget: final(self).budget, ..*old(self) }),
    {
        let limit: u32 = budget_limit(&self.config);
        self.budget.try_spend(limit, BUDGET_WINDOW, now)
    }

    /// How many requests are left in this hour.
    pub fn budget_remaining(&mut self, now: u64) -> (n: u32)
        ensures
            n == old(self).left(now),
            final(self).budget.spent@ == recent_requests(*old(self), now),
            *final(self) == (EumetnetProvider { budget: final(self).budget, ..*old(self) }),
    {
        let limit: u32 = budget_limit(&self.config);
        self.budget.remaining(limit, BUDGET_WINDOW, now)
    }

    /// Take up the cells that an earlier session saved, once. What is known
    /// already stays.
    pub fn load_backdrop(
        &mut self,
        saved: Option<Vec<BackdropCacheEntry>>,
        now_unix: u64,
        now: u64,
    )
        ensures
            final(self).backdrop_loaded,
            *final(self) == (EumetnetProvider {
                cells: final(self).cells,
                backdrop_loaded: true,
                ..*old(self)
            }),
            forall|k: (u64, u64)|
                (#[trigger] final(self).cells.entry(k)) == if old(self).cells.entry(k) is Some {
                    old(self).cells.entry(k)
                } else {
                    match saved {
                        Some(s) => if old(self).backdrop_loaded {
                            None
                        } else {
                            first_restored(
                                from_disk(s@, now_unix, BACKDROP_HISTORY_SECS, s@.len()),
                                k,
                                now,
                                0,
                            )
                        },
                        None => None,
                    }
                },
    {
        if self.backdrop_loaded {
            return;
        }
        self.backdrop_loaded = true;
        if let Some(s) = saved {
            let cells = backdrop_from_disk(s, now_unix, BACKDROP_HISTORY_SECS);
            self.cells.load_backdrop(cells, now);
        }
    }

    /// The cells as they are saved.
    pub fn save_backdrop(&self, now: u64, now_unix: u64) -> (r: Vec<BackdropCacheEntry>)
        ensures
            saves_all(saved_cells(r@), self.cells, now, now_unix),
    {
        self.cells.save_backdrop(now, now_unix)
    }

    /// Plan what to get for a view: the names that are known without asking,
    /// and either the readings in view or those of the cells around the cities.
    pub fn plan_observations(
        &self,
        saved: Option<StationListEntry>,
        age_secs: u64,
        zoom: Double,
        cutoff: Double,
    ) -> (plan: ObservationsPlan)
        ensures
            plan.names@ == match saved {
                Some(e) => if is_current(e, age_secs) {
                    e.stations@
                } else {
                    Seq::empty()
                },
                None => Seq::empty(),
            },
            plan.list == (plan.names@.len() == 0),
            plan.viewport == cutoff.at_most(zoom),
            plan.backdrop == zoom.below(cutoff),
    {
        let names = known_stations(saved, age_secs);
        let list = names.len() == 0;
        ObservationsPlan {
            names,
            list,
            viewport: should_fetch_viewport(zoom, cutoff),
            backdrop: should_fetch_backdrop(zoom, cutoff),
        }
    }

    /// Start on the cells, given in their order: what is known is shown, and
    /// of what is not fresh as much is asked for as the budget allows. Nothing
    /// is asked for while the gateway is left alone.
    pub fn start_batch(&mut self, cells: &[(u64, u64)], seen: &mut SeenIds, now: u64) -> (plan:
        BatchPlan)
        ensures
            ({
                let blocked = old(self).limit.blocks(now);
                let known = served(old(self).cells, cells@, now, blocked, cells@.len());
                let stale = stale_cells(old(self).cells, cells@, now, cells@.len());
                &&& plan.emit@ == new_points(known, old(seen).set(), known.len())
                &&& final(seen).set() == seen_after(known, old(seen).set(), known.len())
                &&& plan.flush == !blocked
                &&& plan.fetch@ == if blocked {
                    Seq::empty()
                } else {
                    at_most_first(stale, allowance(old(self).left(now) as u32))
                }
                &&& final(self).budget.spent@ == if blocked {
                    old(self).budget.spent@
                } else {
                    recent_requests(*old(self), now)
                }
            }),
            *final(self) == (EumetnetProvider { budget: final(self).budget, ..*old(self) }),
    {
        let blocked = self.limit.is_blocked(now);
        let remaining: u32 = if blocked {
            0
        } else {
            self.budget_remaining(now)
        };
        self.cells.plan_batch(cells, seen, blocked, remaining, now)
    }

    /// Take in the answer to a query of a cell, which was asked for at
    /// `fetched`. A refusal at `now` is remembered.
    pub fn take_cell(
        &mut self,
        key: (u64, u64),
        fetch: AreaFetch,
        names: &Vec<StationInfo>,
        worlds: &Vec<WorldPoint>,
        seen: &mut SeenIds,
        fetched: u64,
        now: u64,
    ) -> (step: AreaStep)
        requires
            fetch matches AreaFetch::Stations(s) ==> worlds.len() == s.len(),
            now <= CLOCK_LIMIT,
        ensures
            *final(self) == (EumetnetProvider {
                cells: final(self).cells,
                limit: final(self).limit,
                ..*old(self)
            }),
            forall|k: (u64, u64)|
                k != key ==> (#[trigger] final(self).cells.entry(k)) == old(self).cells.entry(k),
            match fetch {
                AreaFetch::Stations(s) => {
                    &&& final(self).cells.entry(key) matches Some((points, t)) && t == fetched
                        && are_points_of(points, s@, names@, worlds@) && step.emit@ == new_points(
                        points,
                        old(seen).set(),
                        points.len(),
                    ) && final(seen).set() == seen_after(points, old(seen).set(), points.len())
                    &&& step.flush == (step.emit.len() > 0)
                    &&& !step.stop
                },
                AreaFetch::Empty => {
                    &&& final(self).cells.entry(key) == Some(
                        (Seq::<ObservationPoint>::empty(), fetched),
                    )
                    &&& *final(seen) == *old(seen)
                    &&& step.emit.len() == 0 && !step.flush && !step.stop
                },
                _ => {
                    &&& final(self).cells.entry(key) == old(self).cells.entry(key)
                    &&& *final(seen) == *old(seen)
                    &&& step.emit.len() == 0 && !step.flush && step.stop
                },
            },
            final(self).limit.until == match fetch {
                AreaFetch::RateLimited(reset) => Some(
                    (now + cooldown(reset) * 1_000_000_000) as u64,
                ),
                _ => old(self).limit.until,
            },
    {
        let step = self.cells.take_area(key, fetch, names, worlds, seen, fetched);
        if let Some(reset) = step.refused {
            self.limit.refused(reset, now);
        }
        step
    }

    /// Start on the readings in view: those that are kept, where they serve.
    pub fn viewport_in_memory(&self, want: Option<Bounds>, now: u64) -> (r: Option<
        Vec<ObservationPoint>,
    >)
        ensures
            r is Some <==> self.viewport.serves(want, now),
            r matches Some(points) ==> points@ == (self.viewport.entry->0).points@,
    {
        self.viewport.from_memory(want, now)
    }

    /// Go on with the readings in view: those that were saved, where they
    /// serve. Otherwise the gateway is asked, unless it is left alone or the
    /// budget is spent.
    pub fn viewport_on_disk(
        &mut self,
        saved: Option<(DiskCacheEntry, u64)>,
        want: Option<Bounds>,
        now: u64,
    ) -> (step: ViewportStep)
        ensures
            *final(self) == (EumetnetProvider {
                viewport: final(self).viewport,
                budget: final(self).budget,
                ..*old(self)
            }),
            if disk_serves(saved, want) {
                &&& step matches ViewportStep::Have(points) && points@ == (saved->0).0.points@
                    && holds(final(self).viewport, points@, want, now, None)
                &&& final(self).budget == old(self).budget
            } else {
                &&& final(self).viewport == old(self).viewport
                &&& step is Ask <==> !old(self).limit.blocks(now) && old(self).may_ask(now)
                &&& step is Skip <==> old(self).limit.blocks(now) || !old(self).may_ask(now)
                &&& final(self).budget.spent@ == if old(self).limit.blocks(now) {
                    old(self).budget.spent@
                } else {
                    requests_after(*old(self), now)
                }
            },
    {
        if let Some((entry, age)) = saved {
            if let Some(points) = self.viewport.from_disk(entry, age, want, now) {
                return ViewportStep::Have(points);
            }
        }
        if self.limit.is_blocked(now) {
            return ViewportStep::Skip;
        }
        if self.try_spend(now) {
            ViewportStep::Ask
        } else {
            ViewportStep::Skip
        }
    }

    /// End on the readings in view with the answer of the gateway. Returns the
    /// reports, and what has to be saved.
    pub fn take_viewport(
        &mut self,
        fetch: AreaFetch,
        names: &Vec<StationInfo>,
        worlds: &Vec<WorldPoint>,
        want: Option<Bounds>,
        now: u64,
        secs: i64,
    ) -> (r: (Vec<ObservationPoint>, Option<DiskCacheEntry>))
        requires
            fetch matches AreaFetch::Stations(s) ==> worlds.len() == s.len(),
            now <= CLOCK_LIMIT,
        ensures
            *final(self) == (EumetnetProvider {
                viewport: final(self).viewport,
                limit: final(self).limit,
                ..*old(self)
            }),
            match fetch {
                AreaFetch::Stations(s) => are_points_of(r.0@, s@, names@, worlds@),
                _ => r.0.len() == 0,
            },
            r.1 is Some <==> r.0.len() > 0,
            r.1 matches Some(e) ==> e.bounds == want && e.points@ == r.0@ && holds(
                final(self).viewport,
                r.0@,
                want,
                now,
                Some(secs),
            ),
            r.1 is None ==> final(self).viewport == old(self).viewport,
            final(self).limit.until == match fetch {
                AreaFetch::RateLimited(reset) => Some(
                    (now + cooldown(reset) * 1_000_000_000) as u64,
                ),
                _ => old(self).limit.until,
            },
    {
        let points = area_points(fetch, names, worlds, &mut self.limit, now);
        let save = self.viewport.from_gateway(&points, want, now, secs);
        (points, save)
    }

    /// Start on the list of stations. A request is taken from the budget where
    /// it has to be asked for.
    pub fn start_station_list(
        &mut self,
        saved: Option<StationListEntry>,
        age_secs: u64,
        now: u64,
    ) -> (step: StationListStep)
        ensures
            ({
                let current = saved matches Some(e) && is_current(e, age_secs);
                &&& step is Ask <==> !current && old(self).may_ask(now)
                &&& step matches StationListStep::Have(s) ==> s@ == saved_stations(saved)
                &&& step matches StationListStep::Ask(s) ==> s@ == saved_stations(saved)
                &&& final(self).budget.spent@ == if current {
                    old(self).budget.spent@
                } else {
                    requests_after(*old(self), now)
                }
            }),
            *final(self) == (EumetnetProvider { budget: final(self).budget, ..*old(self) }),
    {
        let limit: u32 = budget_limit(&self.config);
        station_list_start(saved, age_secs, &mut self.budget, limit, now)
    }
}

/// Within an hour no more requests are made than the budget allows, whatever
/// asks for them.
pub proof fn requests_stay_within_the_budget(p: EumetnetProvider, q: EumetnetProvider, now: u64)
    requires
        recent_requests(p, now).len() <= p.per_hour(),
        q.budget.spent@ == requests_after(p, now),
        q.config == p.config,
    ensures
        recent_requests(q, now).len() <= q.per_hour(),
{
    let keep = |t: u64| crate::budget::counts(t, now, BUDGET_WINDOW);
    let kept = recent_requests(p, now);
    if p.may_ask(now) {
        crate::budget::budget_is_never_overrun(
            p.budget.spent@,
            p.per_hour() as u32,
            BUDGET_WINDOW,
            now,
        );
    } else {
        assert(kept.filter(keep).len() <= kept.len()) by {
            kept.lemma_filter_len(keep);
        }
    }
}

} // verus!
