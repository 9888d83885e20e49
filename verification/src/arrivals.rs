//! What the program makes of what its background work sends.

use vstd::prelude::*;

use crate::app::App;
use crate::border_cache::{
    inserted, is_loaded, BorderCache, BorderRefreshPayload, BorderRefreshResult, PRELOAD_BIT,
};
use crate::borders::BorderResolution;
use crate::geo::{Bounds, GeoPoint, WorldPoint};
use crate::layers::{LayerId, LayerRegistry, LayerStatus};
use crate::lightning::{
    arrived, flashing, recent, reports_connection, LightningTrail, MAX_STRIKES, MINUTE,
};
use crate::location::{same_place, shown, LocationState};
use crate::observations::{obs_updated, ObsRefreshPayload, ObsRefreshResult};
use crate::radar::{
    next_id, pruned, PlanModel, RadarModel, RadarPlan, RadarPreloadResult, RadarRefreshPayload,
    RadarRefreshResult, CLOCK_LIMIT,
};
use crate::timeline::TimelineModel;
use crate::verify::{Verify, VerifyResult};
use crate::warnings::{WarnRefreshPayload, WarnRefreshResult, Warnings};

verus! {

/// The view that results are taken in for.
#[derive(Debug, Clone, Copy)]
pub struct ViewAt {
    pub bounds: Bounds,
    /// The zoom of the radar's tiles.
    pub z: u8,
    /// The resolution of the borders.
    pub desired: BorderResolution,
}

/// The radar.
impl App {
    /// Whether a message about the radar left the program as `after` and asked
    /// for `plan`. One of an earlier fetch is ignored.
    pub open spec fn radar_told(
        self,
        after: App,
        plan: PlanModel,
        result: RadarRefreshResult,
        view: ViewAt,
        now: u64,
    ) -> bool {
        let m0 = self.radar@;
        let t0 = self.timeline@;
        &&& after == (App {
            radar: after.radar,
            timeline: after.timeline,
            layers: after.layers,
            ..self
        })
        &&& if result.id != m0.refresh_id {
            &&& after.radar@ == m0
            &&& after.timeline@ == t0
            &&& after.layers == self.layers
            &&& plan == PlanModel::nothing()
        } else {
            match result.result {
                RadarRefreshPayload::Tile(tile) => {
                    &&& after.radar@ == m0.tile_arrived(tile@)
                    &&& after.timeline@ == t0
                    &&& after.layers == self.layers
                    &&& plan == PlanModel::nothing()
                },
                RadarRefreshPayload::Ready(frame) => {
                    let t = m0.ready_timeline(t0, frame@);
                    let m = m0.ready(t0, frame@, view.bounds, view.z);
                    let shown = self.layers.shown(LayerId::Radar);
                    &&& after.timeline@ == t
                    &&& after.radar@ == m.preload_started(t, shown, now)
                    &&& plan == m.preload_plan(t, shown, now)
                    &&& self.layers.updated(
                        after.layers,
                        LayerId::Radar,
                        LayerStatus::Ready,
                        now,
                    )
                },
                RadarRefreshPayload::Error(error) => {
                    &&& after.radar@ == m0.fetch_failed(now)
                    &&& after.timeline@ == t0
                    &&& plan == PlanModel::nothing()
                    &&& self.layers.updated(
                        after.layers,
                        LayerId::Radar,
                        LayerStatus::Error(error),
                        now,
                    )
                },
            }
        }
    }

    fn take_radar(&mut self, result: RadarRefreshResult, view: &ViewAt, now: u64) -> (r: (
        bool,
        RadarPlan,
    ))
        requires
            old(self).well_formed(),
            now <= CLOCK_LIMIT,
        ensures
            final(self).well_formed(),
            r.0 == (result.id == old(self).radar@.refresh_id),
            old(self).radar_told(*final(self), r.1@, result, *view, now),
    {
        self.radar.drain_refresh_result(
            &mut self.timeline,
            &mut self.layers,
            result,
            view.bounds,
            view.z,
            now,
        )
    }
}

/// Whether a message about borders is news to the view: neither one of an
/// earlier fetch nor of a fetch ahead.
pub open spec fn border_news(c: BorderCache, result: BorderRefreshResult) -> bool {
    !(result.result is TilesBuilt) && result.id < PRELOAD_BIT && result.id == c.refresh_id
}

/// Whether a message about borders turned the borders and the layers into
/// `after` and `layers_after`.
pub open spec fn borders_turned(
    c: BorderCache,
    after: BorderCache,
    layers: LayerRegistry,
    layers_after: LayerRegistry,
    result: BorderRefreshResult,
    desired: BorderResolution,
    now: u64,
) -> bool {
    match result.result {
        BorderRefreshPayload::TilesBuilt(r) => {
            &&& layers_after == layers
            &&& after == (BorderCache { built: after.built, ..c })
            &&& after.built@ == if c.built@.contains(r) {
                c.built@
            } else {
                c.built@.push(r)
            }
        },
        BorderRefreshPayload::Ready(layer) => if border_news(c, result) {
            &&& c.layer_arrived(after, layer, desired)
            &&& if layer.resolution == desired || c.borders is None {
                layers.updated(layers_after, LayerId::MapBorders, LayerStatus::Ready, now)
            } else {
                layers_after == layers
            }
        } else if result.id >= PRELOAD_BIT {
            &&& layers_after == layers
            &&& inserted(c.loaded@, after.loaded@, layer, desired)
            &&& after == (BorderCache {
                loaded: after.loaded,
                version: if is_loaded(c.loaded@, layer.resolution) {
                    c.version
                } else {
                    next_id(c.version)
                },
                ..c
            })
        } else {
            after == c && layers_after == layers
        },
        BorderRefreshPayload::Error(error) => if border_news(c, result) {
            &&& after == (BorderCache { fetching: None, loading: false, ..c })
            &&& layers.updated(layers_after, LayerId::MapBorders, LayerStatus::Error(error), now)
        } else {
            after == c && layers_after == layers
        },
    }
}

/// The borders.
impl App {
    /// Whether a message about borders left the program as `after`.
    pub open spec fn borders_told(
        self,
        after: App,
        result: BorderRefreshResult,
        view: ViewAt,
        now: u64,
    ) -> bool {
        &&& after == (App { borders: after.borders, layers: after.layers, ..self })
        &&& borders_turned(
            self.borders,
            after.borders,
            self.layers,
            after.layers,
            result,
            view.desired,
            now,
        )
    }

    fn take_borders(&mut self, result: BorderRefreshResult, view: &ViewAt, now: u64) -> (changed:
        bool)
        requires
            old(self).well_formed(),
        ensures
            final(self).well_formed(),
            changed == border_news(old(self).borders, result),
            old(self).borders_told(*final(self), result, *view, now),
    {
        self.borders.drain_border_result(&mut self.layers, result, view.desired, now)
    }
}

/// Whether each message about the radar turned one state of `states` into the
/// next, with its plan.
pub open spec fn radar_followed(
    states: Seq<App>,
    results: Seq<RadarRefreshResult>,
    plans: Seq<RadarPlan>,
    view: ViewAt,
    now: u64,
) -> bool {
    &&& states.len() == results.len() + 1
    &&& plans.len() == results.len()
    &&& forall|i: int|
        0 <= i < results.len() ==> (#[trigger] states[i]).radar_told(
            states[i + 1],
            plans[i]@,
            results[i],
            view,
            now,
        )
}

/// Whether a message about the radar was of the latest fetch.
pub open spec fn radar_heard(states: Seq<App>, results: Seq<RadarRefreshResult>) -> bool {
    exists|i: int|
        0 <= i < results.len() && (#[trigger] results[i]).id == states[i].radar@.refresh_id
}

/// Whether each message about borders turned one state of `states` into the
/// next.
pub open spec fn borders_followed(
    states: Seq<App>,
    results: Seq<BorderRefreshResult>,
    view: ViewAt,
    now: u64,
) -> bool {
    &&& states.len() == results.len() + 1
    &&& forall|i: int|
        0 <= i < results.len() ==> (#[trigger] states[i]).borders_told(
            states[i + 1],
            results[i],
            view,
            now,
        )
}

/// Whether a message about borders was news.
pub open spec fn borders_heard(states: Seq<App>, results: Seq<BorderRefreshResult>) -> bool {
    exists|i: int| 0 <= i < results.len() && border_news(states[i].borders, #[trigger] results[i])
}

/// Whether messages about the radar led through the states `a` and then
/// messages about borders through the states `b`; what was changed and asked
/// for is `r`.
pub open spec fn refreshes_taken(
    before: App,
    after: App,
    a: Seq<App>,
    b: Seq<App>,
    radar: Seq<RadarRefreshResult>,
    borders: Seq<BorderRefreshResult>,
    r: (bool, Vec<RadarPlan>),
    view: ViewAt,
    now: u64,
) -> bool {
    &&& radar_followed(a, radar, r.1@, view, now)
    &&& borders_followed(b, borders, view, now)
    &&& a.first() == before
    &&& b.first() == a.last()
    &&& b.last() == after
    &&& r.0 == (radar_heard(a, radar) || borders_heard(b, borders))
}

impl App {
    /// Take in what arrived about the radar and then about the borders.
    /// Returns whether something changed, and what to do after each message
    /// about the radar.
    pub fn drain_refresh_results(
        &mut self,
        radar: Vec<RadarRefreshResult>,
        borders: Vec<BorderRefreshResult>,
        view: &ViewAt,
        now: u64,
    ) -> (r: (bool, Vec<RadarPlan>))
        requires
            old(self).well_formed(),
            now <= CLOCK_LIMIT,
        ensures
            final(self).well_formed(),
            exists|a: Seq<App>, b: Seq<App>| #[trigger]
                refreshes_taken(*old(self), *final(self), a, b, radar@, borders@, r, *view, now),
    {
        let mut changed = false;
        let mut plans: Vec<RadarPlan> = Vec::new();
        let ghost all = radar@;
        let ghost mut a: Seq<App> = seq![*self];
        for result in it: radar
            invariant
                self.well_formed(),
                now <= CLOCK_LIMIT,
                it.seq() == all,
                radar_followed(a, all.take(it.index() as int), plans@, *view, now),
                a.first() == *old(self),
                a.last() == *self,
                changed == radar_heard(a, all.take(it.index() as int)),
        {
            let ghost n = it.index() as int;
            let ghost a0 = a;
            let (current, plan) = self.take_radar(result, view, now);
            plans.push(plan);
            changed = changed || current;
            proof {
                a = a.push(*self);
                let done = all.take(n + 1);
                assert(done =~= all.take(n).push(result));
                assert forall|i: int| 0 <= i < done.len() implies (#[trigger] a[i]).radar_told(
                    a[i + 1],
                    plans@[i]@,
                    done[i],
                    *view,
                    now,
                ) by {
                    if i < n {
                        assert(a0[i].radar_told(a0[i + 1], plans@[i]@, all.take(n)[i], *view, now));
                    }
                }
                if current {
                    assert(done[n].id == a[n].radar@.refresh_id);
                }
                if radar_heard(a0, all.take(n)) {
                    let i = choose|i: int|
                        0 <= i < n && (#[trigger] all.take(n)[i]).id == a0[i].radar@.refresh_id;
                    assert(done[i].id == a[i].radar@.refresh_id);
                }
                if radar_heard(a, done) {
                    let i = choose|i: int|
                        0 <= i < done.len() && (#[trigger] done[i]).id == a[i].radar@.refresh_id;
                    if i < n {
                        assert(all.take(n)[i].id == a0[i].radar@.refresh_id);
                    }
                }
            }
        }
        assert(all.take(all.len() as int) =~= all);
        let ghost heard = changed;
        let ghost every = borders@;
        let ghost mut b: Seq<App> = seq![*self];
        for result in it: borders
            invariant
                self.well_formed(),
                it.seq() == every,
                borders_followed(b, every.take(it.index() as int), *view, now),
                b.first() == a.last(),
                b.last() == *self,
                changed == (heard || borders_heard(b, every.take(it.index() as int))),
        {
            let ghost n = it.index() as int;
            let ghost b0 = b;
            let news = self.take_borders(result, view, now);
            changed = changed || news;
            proof {
                b = b.push(*self);
                let done = every.take(n + 1);
                assert(done =~= every.take(n).push(result));
                assert forall|i: int| 0 <= i < done.len() implies (#[trigger] b[i]).borders_told(
                    b[i + 1],
                    done[i],
                    *view,
                    now,
                ) by {
                    if i < n {
                        assert(b0[i].borders_told(b0[i + 1], every.take(n)[i], *view, now));
                    }
                }
                if news {
                    assert(border_news(b[n].borders, done[n]));
                }
                if borders_heard(b0, every.take(n)) {
                    let i = choose|i: int|
                        0 <= i < n && border_news(b0[i].borders, #[trigger] every.take(n)[i]);
                    assert(border_news(b[i].borders, done[i]));
                }
                if borders_heard(b, done) {
                    let i = choose|i: int|
                        0 <= i < done.len() && border_news(b[i].borders, #[trigger] done[i]);
                    if i < n {
                        assert(border_news(b0[i].borders, every.take(n)[i]));
                    }
                }
            }
        }
        assert(every.take(every.len() as int) =~= every);
        let r = (changed, plans);
        assert(refreshes_taken(*old(self), *self, a, b, all, every, r, *view, now));
        r
    }
}

/// The radar and the timeline after the first `n` outcomes of fetches ahead.
pub open spec fn preloads_kept(
    m: RadarModel,
    t: TimelineModel,
    results: Seq<RadarPreloadResult>,
    z: u8,
    now: u64,
    n: nat,
) -> (RadarModel, TimelineModel)
    decreases n,
{
    if n == 0 {
        (m, t)
    } else {
        let (m1, t1) = preloads_kept(m, t, results, z, now, (n - 1) as nat);
        let r = results[n - 1]@;
        (m1.preloaded(t1, r, z, now), RadarModel::preloaded_timeline(t1, r, z))
    }
}

impl App {
    /// Whether one of the first `n` outcomes of fetches ahead changes what is on
    /// screen.
    pub open spec fn preload_heard(
        self,
        results: Seq<RadarPreloadResult>,
        z: u8,
        now: u64,
        n: nat,
    ) -> bool {
        exists|i: int|
            0 <= i < n && RadarModel::preload_shows(
                preloads_kept(self.radar@, self.timeline@, results, z, now, i as nat).1,
                (#[trigger] results[i])@,
                z,
            )
    }

    /// The program with frames dropped that lie far from the one on screen.
    pub open spec fn with_cache_pruned(self) -> RadarModel {
        RadarModel {
            cache: pruned(self.radar@.cache, self.radar.cache.slots(), self.timeline@),
            ..self.radar@
        }
    }

    /// Take in the outcomes of fetches ahead, and keep no more frames than
    /// there is room for. Returns whether what is on screen changed.
    pub fn drain_preload_results(&mut self, results: Vec<RadarPreloadResult>, z: u8, now: u64) -> (
    changed: bool)
        requires
            old(self).well_formed(),
            now <= CLOCK_LIMIT,
        ensures
            final(self).well_formed(),
            exists|a: App|
                {
                    &&& final(self).radar@ == #[trigger] a.with_cache_pruned()
                    &&& (a.radar@, a.timeline@) == preloads_kept(
                        old(self).radar@,
                        old(self).timeline@,
                        results@,
                        z,
                        now,
                        results@.len(),
                    )
                    &&& *final(self) == (App {
                        radar: final(self).radar,
                        timeline: a.timeline,
                        ..*old(self)
                    })
                },
            changed == old(self).preload_heard(results@, z, now, results@.len()),
    {
        let mut changed = false;
        let ghost all = results@;
        for result in it: results
            invariant
                self.well_formed(),
                now <= CLOCK_LIMIT,
                it.seq() == all,
                (self.radar@, self.timeline@) == preloads_kept(
                    old(self).radar@,
                    old(self).timeline@,
                    all,
                    z,
                    now,
                    it.index() as nat,
                ),
                *self == (App { radar: self.radar, timeline: self.timeline, ..*old(self) }),
                changed == old(self).preload_heard(all, z, now, it.index() as nat),
        {
            let ghost n = it.index() as nat;
            let ghost t = self.timeline@;
            let shows = self.radar.drain_preload_result(&mut self.timeline, result, z, now);
            assert(all[n as int] == result);
            assert(shows == RadarModel::preload_shows(t, all[n as int]@, z));
            changed = changed || shows;
        }
        let ghost a = *self;
        self.radar.prune_frame_cache(&self.timeline);
        assert(self.radar@ == a.with_cache_pruned());
        changed
    }
}

/// The checks of keys after the first `n` outcomes: those of earlier checks are
/// ignored.
pub open spec fn checks_settled(v: Verify, results: Seq<VerifyResult>, n: nat) -> Verify
    decreases n,
{
    if n == 0 {
        v
    } else {
        let before = checks_settled(v, results, (n - 1) as nat);
        let r = results[n - 1];
        if r.id == v.refresh_id {
            Verify {
                refresh_id: v.refresh_id,
                running: false,
                last_verify: Some((r.target, r.outcome)),
            }
        } else {
            before
        }
    }
}

/// Whether each message about warnings turned one state of `states` into the
/// next.
pub open spec fn warnings_followed(
    states: Seq<App>,
    results: Seq<WarnRefreshResult>,
    now: u64,
) -> bool {
    &&& states.len() == results.len() + 1
    &&& forall|i: int|
        0 <= i < results.len() ==> (#[trigger] states[i]).warnings_told(
            states[i + 1],
            results[i],
            now,
        )
}

/// Whether each message about observations turned one state of `states` into
/// the next, at `secs` since the epoch.
pub open spec fn obs_followed(
    states: Seq<App>,
    results: Seq<ObsRefreshResult>,
    secs: i64,
    now: u64,
) -> bool {
    &&& states.len() == results.len() + 1
    &&& forall|i: int|
        0 <= i < results.len() ==> (#[trigger] states[i]).obs_told(
            states[i + 1],
            results[i],
            secs,
            now,
        )
}

/// Whether a message about observations put new readings on the map.
pub open spec fn obs_heard(states: Seq<App>, results: Seq<ObsRefreshResult>) -> bool {
    exists|i: int| 0 <= i < results.len() && states[i].obs@.shows(#[trigger] results[i])
}

/// Checks, warnings and observations.
impl App {
    /// Take in the outcomes of checks of keys.
    pub fn drain_verify_results(&mut self, results: &Vec<VerifyResult>) -> (changed: bool)
        requires
            old(self).well_formed(),
        ensures
            final(self).well_formed(),
            *final(self) == (App {
                verify: checks_settled(old(self).verify, results@, results@.len()),
                ..*old(self)
            }),
            changed == exists|i: int|
                0 <= i < results.len() && (#[trigger] results[i]).id == old(self).verify.refresh_id,
    {
        let mut changed = false;
        let mut i: usize = 0;
        while i < results.len()
            invariant
                self.well_formed(),
                i <= results.len(),
                *self == (App {
                    verify: checks_settled(old(self).verify, results@, i as nat),
                    ..*old(self)
                }),
                self.verify.refresh_id == old(self).verify.refresh_id,
                changed == exists|j: int|
                    0 <= j < i && (#[trigger] results[j]).id == old(self).verify.refresh_id,
            decreases results.len() - i,
        {
            let current = self.verify.drain_verify_result(results[i]);
            changed = changed || current;
            i = i + 1;
        }
        changed
    }

    /// Whether a message about warnings left the program as `after`. One of an
    /// earlier fetch is ignored.
    pub open spec fn warnings_told(self, after: App, result: WarnRefreshResult, now: u64) -> bool {
        if result.id == self.warnings.refresh_id {
            match result.result {
                WarnRefreshPayload::Ready(layer) => {
                    &&& after == (App {
                        warnings: Warnings { running: false, layer: Some(layer), ..self.warnings },
                        layers: after.layers,
                        ..self
                    })
                    &&& self.layers.updated(
                        after.layers,
                        LayerId::MeteoAlarm,
                        LayerStatus::Ready,
                        now,
                    )
                },
                WarnRefreshPayload::Error(e) => {
                    &&& after == (App {
                        warnings: Warnings { running: false, ..self.warnings },
                        layers: after.layers,
                        ..self
                    })
                    &&& self.layers.updated(
                        after.layers,
                        LayerId::MeteoAlarm,
                        LayerStatus::Error(e),
                        now,
                    )
                },
            }
        } else {
            after == self
        }
    }

    /// Take in what arrived about warnings.
    pub fn drain_warning_results(&mut self, results: Vec<WarnRefreshResult>, now: u64) -> (changed:
        bool)
        requires
            old(self).well_formed(),
        ensures
            final(self).well_formed(),
            exists|a: Seq<App>|
                {
                    &&& #[trigger] warnings_followed(a, results@, now)
                    &&& a.first() == *old(self)
                    &&& a.last() == *final(self)
                },
            changed == exists|i: int|
                0 <= i < results.len() && (#[trigger] results[i]).id
                    == old(self).warnings.refresh_id,
    {
        let mut changed = false;
        let ghost all = results@;
        let ghost mut a: Seq<App> = seq![*self];
        for result in it: results
            invariant
                self.well_formed(),
                it.seq() == all,
                self.warnings.refresh_id == old(self).warnings.refresh_id,
                warnings_followed(a, all.take(it.index() as int), now),
                a.first() == *old(self),
                a.last() == *self,
                changed == exists|i: int|
                    0 <= i < it.index() && (#[trigger] all[i]).id
                        == old(self).warnings.refresh_id,
        {
            let ghost n = it.index() as int;
            let ghost a0 = a;
            let current = self.warnings.drain_warning_result(&mut self.layers, result, now);
            changed = changed || current;
            proof {
                a = a.push(*self);
                let done = all.take(n + 1);
                assert(done =~= all.take(n).push(result));
                assert forall|i: int| 0 <= i < done.len() implies (#[trigger] a[i]).warnings_told(
                    a[i + 1],
                    done[i],
                    now,
                ) by {
                    if i < n {
                        assert(a0[i].warnings_told(a0[i + 1], all.take(n)[i], now));
                    }
                }
                assert(all[n] == result);
            }
        }
        assert(all.take(all.len() as int) =~= all);
        changed
    }

    /// Whether a message about observations left the program as `after`.
    pub open spec fn obs_told(
        self,
        after: App,
        result: ObsRefreshResult,
        secs: i64,
        now: u64,
    ) -> bool {
        &&& after == (App { obs: after.obs, layers: after.layers, ..self })
        &&& after.obs@ == self.obs@.received(result, secs)
        &&& if result.id != self.obs@.refresh_id {
            after.layers == self.layers
        } else {
            match result.result {
                ObsRefreshPayload::Ready => obs_updated(
                    self.layers,
                    after.layers,
                    LayerStatus::Ready,
                    now,
                ),
                ObsRefreshPayload::Error(e) => obs_updated(
                    self.layers,
                    after.layers,
                    LayerStatus::Error(e),
                    now,
                ),
                _ => after.layers == self.layers,
            }
        }
    }

    /// Take in what arrived about observations, at `secs` since the epoch.
    pub fn drain_obs_results(&mut self, results: Vec<ObsRefreshResult>, secs: i64, now: u64) -> (
    changed: bool)
        requires
            old(self).well_formed(),
        ensures
            final(self).well_formed(),
            exists|a: Seq<App>|
                {
                    &&& #[trigger] obs_followed(a, results@, secs, now)
                    &&& a.first() == *old(self)
                    &&& a.last() == *final(self)
                    &&& changed == obs_heard(a, results@)
                },
    {
        let mut changed = false;
        let ghost all = results@;
        let ghost mut a: Seq<App> = seq![*self];
        for result in it: results
            invariant
                self.well_formed(),
                it.seq() == all,
                obs_followed(a, all.take(it.index() as int), secs, now),
                a.first() == *old(self),
                a.last() == *self,
                changed == obs_heard(a, all.take(it.index() as int)),
        {
            let ghost n = it.index() as int;
            let ghost a0 = a;
            let shows = self.obs.drain_obs_result(&mut self.layers, result, secs, now);
            changed = changed || shows;
            proof {
                a = a.push(*self);
                let done = all.take(n + 1);
                assert(done =~= all.take(n).push(result));
                assert forall|i: int| 0 <= i < done.len() implies (#[trigger] a[i]).obs_told(
                    a[i + 1],
                    done[i],
                    secs,
                    now,
                ) by {
                    if i < n {
                        assert(a0[i].obs_told(a0[i + 1], all.take(n)[i], secs, now));
                    }
                }
                if shows {
                    assert(a[n].obs@.shows(done[n]));
                }
                if obs_heard(a0, all.take(n)) {
                    let i = choose|i: int|
                        0 <= i < n && a0[i].obs@.shows(#[trigger] all.take(n)[i]);
                    assert(a[i].obs@.shows(done[i]));
                }
                if obs_heard(a, done) {
                    let i = choose|i: int|
                        0 <= i < done.len() && a[i].obs@.shows(#[trigger] done[i]);
                    if i < n {
                        assert(a0[i].obs@.shows(all.take(n)[i]));
                    }
                }
            }
        }
        assert(all.take(all.len() as int) =~= all);
        changed
    }
}

/// Whether each name that arrived turned one state of `states` into the next.
pub open spec fn labels_followed(
    states: Seq<App>,
    results: Seq<(GeoPoint, Option<String>)>,
) -> bool {
    &&& states.len() == results.len() + 1
    &&& forall|i: int|
        0 <= i < results.len() ==> (#[trigger] states[i]).label_told(
            states[i + 1],
            results[i].0,
            results[i].1,
        )
}

/// Whether a name that arrived changed the one shown.
pub open spec fn labels_heard(
    states: Seq<App>,
    results: Seq<(GeoPoint, Option<String>)>,
) -> bool {
    exists|i: int|
        0 <= i < results.len() && states[i].label_is_news(
            (#[trigger] results[i]).0,
            results[i].1,
        )
}

/// Names of places, and strikes.
impl App {
    /// Whether a name is another one than that shown, for the place asked about.
    pub open spec fn label_is_news(self, point: GeoPoint, name: Option<String>) -> bool {
        same_place(self.location.label_at, point) && shown(self.location.label) != shown(name)
    }

    /// Whether a name that arrived left the program as `after`. One for a place
    /// that is no longer asked about is ignored.
    pub open spec fn label_told(self, after: App, point: GeoPoint, name: Option<String>) -> bool {
        &&& after == (App {
            location: LocationState { label: after.location.label, ..self.location },
            ..self
        })
        &&& shown(after.location.label) == if same_place(self.location.label_at, point) {
            shown(name)
        } else {
            shown(self.location.label)
        }
    }

    /// Take in names of places. Returns whether the one shown changed.
    pub fn drain_pin_labels(&mut self, results: Vec<(GeoPoint, Option<String>)>) -> (changed: bool)
        requires
            old(self).well_formed(),
        ensures
            final(self).well_formed(),
            exists|a: Seq<App>|
                {
                    &&& #[trigger] labels_followed(a, results@)
                    &&& a.first() == *old(self)
                    &&& a.last() == *final(self)
                    &&& changed == labels_heard(a, results@)
                },
    {
        let mut changed = false;
        let ghost all = results@;
        let ghost mut a: Seq<App> = seq![*self];
        for result in it: results
            invariant
                self.well_formed(),
                it.seq() == all,
                labels_followed(a, all.take(it.index() as int)),
                a.first() == *old(self),
                a.last() == *self,
                changed == labels_heard(a, all.take(it.index() as int)),
        {
            let ghost n = it.index() as int;
            let ghost a0 = a;
            let (point, name) = result;
            let news = self.location.drain_pin_label(point, name);
            changed = changed || news;
            proof {
                a = a.push(*self);
                let done = all.take(n + 1);
                assert(done =~= all.take(n).push(result));
                assert forall|i: int| 0 <= i < done.len() implies (#[trigger] a[i]).label_told(
                    a[i + 1],
                    done[i].0,
                    done[i].1,
                ) by {
                    if i < n {
                        let r = all.take(n)[i];
                        assert(a0[i].label_told(a0[i + 1], r.0, r.1));
                    }
                }
                if news {
                    assert(a[n].label_is_news(done[n].0, done[n].1));
                }
                if labels_heard(a0, all.take(n)) {
                    let i = choose|i: int|
                        0 <= i < n && a0[i].label_is_news(
                            (#[trigger] all.take(n)[i]).0,
                            all.take(n)[i].1,
                        );
                    assert(a[i].label_is_news(done[i].0, done[i].1));
                }
                if labels_heard(a, done) {
                    let i = choose|i: int|
                        0 <= i < done.len() && a[i].label_is_news(
                            (#[trigger] done[i]).0,
                            done[i].1,
                        );
                    if i < n {
                        assert(a0[i].label_is_news(all.take(n)[i].0, all.take(n)[i].1));
                    }
                }
            }
        }
        assert(all.take(all.len() as int) =~= all);
        changed
    }

    /// Take in strikes and forget old ones. Returns whether the map changed.
    pub fn drain_lightning_results(&mut self, arrivals: &[(WorldPoint, i8)], now: u64) -> (changed:
        bool)
        requires
            old(self).well_formed(),
        ensures
            final(self).well_formed(),
            *final(self) == (App {
                lightning: LightningTrail {
                    strikes: final(self).lightning.strikes,
                    status: final(self).lightning.status,
                    ..old(self).lightning
                },
                ..*old(self)
            }),
            final(self).lightning.strikes@ == old(self).lightning.after(arrivals@, now),
            final(self).lightning.status == if exists|i: int|
                0 <= i < arrivals.len() && reports_connection((#[trigger] arrivals[i]).0) {
                LayerStatus::Ready
            } else {
                old(self).lightning.status
            },
            changed == ({
                let all = old(self).lightning.strikes@ + arrived(arrivals@, now, arrivals@.len());
                let kept = recent(all, now, old(self).lightning.trail_minutes * MINUTE);
                arrivals.len() > 0 || kept.len() < all.len() || kept.len() > MAX_STRIKES
                    || flashing(final(self).lightning.strikes@, now)
            }),
    {
        self.lightning.drain_lightning_results(arrivals, now)
    }
}

/// A resolution whose tiles were written counts once, however often that is
/// reported: there are never more than four.
pub proof fn written_resolutions_count_once(
    c: BorderCache,
    after: BorderCache,
    layers: LayerRegistry,
    layers_after: LayerRegistry,
    result: BorderRefreshResult,
    desired: BorderResolution,
    now: u64,
)
    requires
        borders_turned(c, after, layers, layers_after, result, desired, now),
        c.built@.no_duplicates(),
    ensures
        after.built@.no_duplicates(),
        after.built@.len() <= 4,
{
    let all = set![
        BorderResolution::Low110m,
        BorderResolution::Medium50m,
        BorderResolution::High10m,
        BorderResolution::Regional10m,
    ];
    assert(after.built@.no_duplicates());
    after.built@.unique_seq_to_set();
    assert(after.built@.to_set().subset_of(all));
    assert(all.len() == 4);
    vstd::set_lib::lemma_len_subset(after.built@.to_set(), all);
}

} // verus!
