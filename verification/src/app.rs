//! The parts of the program together, and what one event does to several of
//! them.

use vstd::prelude::*;
use vstd::string::*;

use crate::border_cache::{is_loaded, BorderCache, BorderPlan};
use crate::borders::BorderResolution;
use crate::config::{Config, ConfigEdit};
use crate::geo::{Bounds, GeoPoint};
use crate::layers::{knows, layer_order, restored, Cursor, LayerId, LayerRegistry, LayerStatus};
use crate::lightning::{LightningTrail, Strike};
use crate::location::{LocationArbiter, LocationFix, LocationSource, LocationState, StartView};
use crate::modal::{applied, key_text, sets_key, SettingsLink, SettingsModal};
use crate::observations::{
    any_obs_enabled, obs_enabled, obs_updated, ObsModel, ObsPlan, Observations,
};
use crate::radar::{next_id, Radar, RadarModel, RadarPlan, CLOCK_LIMIT};
use crate::search::Search;
use crate::state::{
    load_state, restored_history, restored_modes, restored_trail, save_state,
    saved_modes, with_observations, StateConfig,
};
use crate::store::{cached_timestamps, slot_of};
use crate::tasks::{next_task_id, TaskIds, TaskKind, TaskMsg, TaskRows};
use crate::text::blank;
use crate::timeline::{history_options, Timeline, TimelineModel};
use crate::verify::{Verify, VerifyPlan, VerifyTarget};
use crate::viewport::{bound_zoom, bounded_zoom};
use crate::warnings::Warnings;

verus! {

/// What the program knows between two events.
pub struct App {
    pub config: Config,
    pub layers: LayerRegistry,
    pub timeline: Timeline,
    pub radar: Radar,
    pub borders: BorderCache,
    pub obs: Observations,
    pub warnings: Warnings,
    pub lightning: LightningTrail,
    pub location: LocationState,
    pub search: Search,
    pub settings: SettingsModal,
    pub verify: Verify,
    pub tasks: TaskRows,
    pub ids: TaskIds,
    pub show_help: bool,
    pub show_legend: bool,
}

/// What to do once the program has started.
#[derive(Debug)]
pub struct BootPlan {
    /// Where the view starts.
    pub view: StartView,
    pub borders: BorderPlan,
    /// The resolutions to fetch ahead.
    pub preload: Vec<BorderResolution>,
    /// The message that announces the fetch of the list of slots.
    pub frame_list: TaskMsg,
}

/// What to do when the view moved.
#[derive(Debug)]
pub struct ViewPlan {
    pub radar: RadarPlan,
    pub borders: BorderPlan,
    pub obs: Option<ObsPlan>,
}

/// What to do after a setting was saved.
#[derive(Debug)]
pub struct SettingsPlan {
    /// The provider of observations is made anew.
    pub rebuild: bool,
    pub obs: Option<ObsPlan>,
    pub verify: Option<VerifyPlan>,
}

/// What to stop when the program ends.
#[derive(Debug, Clone, Copy, PartialEq, Eq, Structural)]
pub struct ShutdownPlan {
    pub radar_preload: bool,
    pub radar_refresh: bool,
    pub borders: bool,
    pub obs: bool,
    pub warnings: bool,
    pub lightning: bool,
}

/// Whether the user gave the place to start at.
pub open spec fn given(fix: Option<LocationFix>) -> bool {
    fix matches Some(f) && f.source is Manual
}

/// The view of a saved session, or where the map starts without one, at a zoom
/// within its bounds.
pub open spec fn first_view(saved: Option<StateConfig>, start: StartView) -> StartView {
    let v = match saved {
        Some(s) => StartView { lat: s.center_lat, lon: s.center_lon, zoom: s.zoom },
        None => start,
    };
    StartView {
        zoom: bounded_zoom(v.zoom),
        ..v
    }
}

/// A saved session starts where it was left: at its latitude and longitude, and at
/// its zoom where that is within bounds; without one the map starts at the place
/// that is given.
pub proof fn sessions_start_where_they_were_left(s: StateConfig, start: StartView)
    ensures
        first_view(Some(s), start).lat == s.center_lat,
        first_view(Some(s), start).lon == s.center_lon,
        first_view(Some(s), start).zoom == bounded_zoom(s.zoom),
        first_view(None, start).lat == start.lat,
        first_view(None, start).lon == start.lon,
        first_view(None, start).zoom == bounded_zoom(start.zoom),
{
}

/// Whether a message announces a task.
pub open spec fn announces(m: TaskMsg, id: u64, label: Seq<char>, kind: TaskKind) -> bool {
    m matches TaskMsg::Start { id: i, label: l, kind: k } && i == id && l@ == label && k == kind
}

/// The depth of history of a saved session, where it is on offer.
pub open spec fn hours_of(s: StateConfig, present: u8) -> u8 {
    match s.history_hours {
        Some(h) => if history_options().contains(h) {
            h
        } else {
            present
        },
        None => present,
    }
}

/// How long strikes stay in a saved session, from 1 to 30 minutes.
pub open spec fn trail_of(s: StateConfig, present: u8) -> u8 {
    match s.lightning_trail_minutes {
        Some(m) => if m < 1 {
            1
        } else if m > 30 {
            30
        } else {
            m
        },
        None => present,
    }
}

/// Whether the layers are those of a saved session.
pub open spec fn session_restored(before: LayerRegistry, after: LayerRegistry, s: StateConfig) -> bool {
    &&& after.cursor() == Cursor::showing(s.selected_layer)
    &&& after.modes() == with_observations(restored_modes(before.modes(), s))
    &&& forall|l: LayerId| #[trigger]
        after.state(l) == if knows(s.known_layers@, l) {
            restored(before.state(l), s.enabled_layers@, l)
        } else {
            before.state(l)
        }
}

impl App {
    pub open spec fn well_formed(self) -> bool {
        &&& self.layers.well_formed()
        &&& self.timeline@.valid()
        &&& self.radar.well_formed()
        &&& self.borders.well_formed()
        &&& self.settings.well_formed()
    }

    /// Whether the program has nothing yet.
    pub open spec fn pristine(
        self,
        config: Config,
        manual: Option<LocationFix>,
        trail_minutes: u8,
    ) -> bool {
        &&& self.well_formed()
        &&& self.config == config
        &&& self.layers.fresh()
        &&& self.timeline@ == TimelineModel::at_first()
        &&& self.radar@ == RadarModel::at_first()
        &&& self.borders.at_first()
        &&& self.obs@ == ObsModel::at_first()
        &&& self.warnings == (Warnings {
            refresh_id: 0,
            running: false,
            last_attempt: None,
            layer: None,
        })
        &&& self.lightning.strikes@ == Seq::<Strike>::empty()
        &&& self.lightning.trail_minutes == trail_minutes
        &&& self.lightning.status is Idle
        &&& !self.lightning.connected
        &&& self.location.arbiter.holds() == manual
        &&& self.location.label is None && self.location.label_at is None
        &&& !self.location.looking_up
        &&& self.location.status is Idle
        &&& self.search.input is None && self.search.pin is None && self.search.label is None
        &&& self.search.status is None
        &&& self.search.id == 0 && !self.search.running
        &&& !self.search.pin_shown
        &&& self.search.layer_status is Idle
        &&& self.settings.session is None
        &&& self.settings.links@ == Seq::<SettingsLink>::empty()
        &&& self.verify == (Verify { refresh_id: 0, running: false, last_verify: None })
        &&& self.tasks.active@.len() == 0
        &&& self.ids.next == 1
        &&& !self.show_help
        &&& self.show_legend
    }

    /// A program that has nothing yet.
    pub fn new(config: Config, manual: Option<LocationFix>, trail_minutes: u8) -> (a: App)
        ensures
            a.pristine(config, manual, trail_minutes),
    {
        let mut arbiter = LocationArbiter::new();
        if let Some(fix) = manual {
            let _ = arbiter.offer(fix);
        }
        App {
            config,
            layers: LayerRegistry::new(),
            timeline: Timeline::new(),
            radar: Radar::new(),
            borders: BorderCache::new(),
            obs: Observations::new(),
            warnings: Warnings::new(),
            lightning: LightningTrail::new(trail_minutes),
            location: LocationState::new(arbiter),
            search: Search::new(),
            settings: SettingsModal::new(),
            verify: Verify::new(),
            tasks: TaskRows::new(),
            ids: TaskIds::new(),
            show_help: false,
            show_legend: true,
        }
    }

    /// Whether `after` is this program with a saved session taken over.
    pub open spec fn session_loaded(self, after: App, s: StateConfig) -> bool {
        &&& session_restored(self.layers, after.layers, s)
        &&& after.timeline@ == (TimelineModel {
            hours: hours_of(s, self.timeline@.hours),
            ..self.timeline@
        })
        &&& after == (App {
            layers: after.layers,
            lightning: LightningTrail {
                trail_minutes: trail_of(s, self.lightning.trail_minutes),
                ..self.lightning
            },
            timeline: after.timeline,
            ..self
        })
    }

    /// Take over a saved session.
    pub fn load_state(&mut self, s: &StateConfig)
        requires
            old(self).well_formed(),
        ensures
            final(self).well_formed(),
            old(self).session_loaded(*final(self), *s),
    {
        self.lightning.trail_minutes = restored_trail(
            s.lightning_trail_minutes,
            self.lightning.trail_minutes,
        );
        self.timeline.history_hours = restored_history(
            s.history_hours,
            self.timeline.history_hours,
        );
        load_state(&mut self.layers, s);
    }

    /// Whether the program has nothing yet but the session saved last, where
    /// there is one.
    pub open spec fn begun(
        self,
        config: Config,
        manual: Option<LocationFix>,
        trail_minutes: u8,
        saved: Option<StateConfig>,
    ) -> bool {
        match saved {
            Some(s) => exists|p: App| #[trigger]
                p.pristine(config, manual, trail_minutes) && p.session_loaded(self, s),
            None => self.pristine(config, manual, trail_minutes),
        }
    }

    /// Start the program: with the session saved last where there is one, and
    /// with the grids that lie on disk, by the names of their files. A place
    /// that the user gave is shown whatever the session showed; the rest of the
    /// session is taken over all the same.
    pub fn boot(
        config: Config,
        fix: Option<LocationFix>,
        start: StartView,
        saved: Option<StateConfig>,
        files: &Vec<String>,
        trail_minutes: u8,
        now: u64,
    ) -> (r: (App, BootPlan))
        ensures
            r.0.well_formed(),
            r.1.view == first_view(
                if given(fix) {
                    None
                } else {
                    saved
                },
                start,
            ),
            r.1.preload@ == crate::border_cache::resolutions().filter(
                |x: BorderResolution|
                    r.0.borders.preloads(BorderResolution::of_zoom(r.1.view.zoom), x),
            ),
            announces(r.1.frame_list, 1, "frame list"@, TaskKind::FrameList),
            exists|a: App|
                {
                    &&& #[trigger] a.begun(config, fix, trail_minutes, saved)
                    &&& r.0 == (App {
                        layers: r.0.layers,
                        borders: r.0.borders,
                        radar: r.0.radar,
                        ids: TaskIds { next: 2 },
                        ..a
                    })
                    &&& r.0.radar@ == (RadarModel { disk: r.0.radar@.disk, ..a.radar@ })
                    &&& a.borders.fetch_started(
                        r.0.borders,
                        BorderResolution::of_zoom(r.1.view.zoom),
                    )
                    &&& a.layers.updated(
                        r.0.layers,
                        LayerId::MapBorders,
                        LayerStatus::Loading,
                        now,
                    )
                },
            r.1.borders == (BorderPlan {
                fetch: Some((next_id(0), BorderResolution::of_zoom(r.1.view.zoom))),
                clear_disk: false,
            }),
            forall|ts: i64| #[trigger]
                r.0.radar@.disk.contains(ts) <==> exists|i: int|
                    0 <= i < files.len() && slot_of(#[trigger] files[i]@) == Some(ts),
    {
        let by_user = match &fix {
            Some(f) => matches!(f.source, LocationSource::Manual),
            None => false,
        };
        let mut app = App::new(config, fix, trail_minutes);
        let ghost p = app;
        let view = match &saved {
            Some(s) => {
                app.load_state(s);
                if by_user {
                    start
                } else {
                    StartView { lat: s.center_lat, lon: s.center_lon, zoom: s.zoom }
                }
            },
            None => start,
        };
        let ghost a = app;
        assert(a.begun(config, fix, trail_minutes, saved)) by {
            assert(p.pristine(config, fix, trail_minutes));
        }
        let zoom = bound_zoom(view.zoom);
        let view = StartView { lat: view.lat, lon: view.lon, zoom };
        let desired = BorderResolution::for_zoom(zoom);
        let borders = app.borders.request_border_refresh(&mut app.layers, desired, now);
        let disk = cached_timestamps(files);
        proof {
            assert forall|ts: i64| #[trigger] disk@.to_set().contains(ts) <==> disk@.contains(
                ts,
            ) by {}
        }
        app.radar.disk_frames = disk;
        let id = next_task_id(&mut app.ids);
        let frame_list = TaskMsg::Start {
            id,
            label: "frame list".to_string(),
            kind: TaskKind::FrameList,
        };
        let preload = app.borders.preload_border_resolutions(desired);
        (app, BootPlan { view, borders, preload, frame_list })
    }

    /// Whether readings were asked for, where some are drawn.
    pub open spec fn readings_asked(self, after: App, plan: Option<ObsPlan>, now: u64) -> bool {
        if obs_enabled(self.layers) {
            &&& after == (App {
                layers: after.layers,
                obs: after.obs,
                ids: TaskIds { next: next_id(self.ids.next) },
                ..self
            })
            &&& after.obs@ == self.obs@.refreshing(now)
            &&& obs_updated(self.layers, after.layers, LayerStatus::Loading, now)
            &&& plan matches Some(p) && p.abort == self.obs@.running && p.id == next_id(
                self.obs@.refresh_id,
            ) && announces(p.start, self.ids.next, "observations"@, TaskKind::Observation)
        } else {
            after == self && plan is None
        }
    }

    /// Ask for readings where some are drawn.
    pub fn request_obs_refresh(&mut self, now: u64) -> (plan: Option<ObsPlan>)
        requires
            old(self).well_formed(),
        ensures
            final(self).well_formed(),
            old(self).readings_asked(*final(self), plan, now),
    {
        if !any_obs_enabled(&self.layers) {
            return None;
        }
        let id = next_task_id(&mut self.ids);
        self.obs.request_obs_refresh(&mut self.layers, now, id)
    }

    /// Whether the radar frame of a view was asked for.
    pub open spec fn radar_asked(
        self,
        after: App,
        plan: RadarPlan,
        bounds: Bounds,
        z: u8,
        now: u64,
    ) -> bool {
        let t = self.timeline@;
        let shown = self.layers.shown(LayerId::Radar);
        &&& after == (App { radar: after.radar, layers: after.layers, ..self })
        &&& after.radar@ == self.radar@.refresh_asked(t, shown, bounds, z, now)
        &&& plan@ == self.radar@.refresh_plan(t, shown, bounds, z, now)
        &&& match self.radar@.refresh_status(t, shown, bounds, z) {
            Some(status) => self.layers.updated(after.layers, LayerId::Radar, status, now),
            None => after.layers == self.layers,
        }
    }

    /// Ask for the radar frame of a view.
    pub fn request_meteogate_refresh(&mut self, bounds: Bounds, z: u8, now: u64) -> (plan:
        RadarPlan)
        requires
            old(self).well_formed(),
            z <= 31,
            now <= CLOCK_LIMIT,
        ensures
            final(self).well_formed(),
            old(self).radar_asked(*final(self), plan, bounds, z, now),
    {
        self.radar.request_meteogate_refresh(&self.timeline, &mut self.layers, bounds, z, now)
    }

    /// Whether the borders of a view were asked for. A fetch of borders stops
    /// the fetches ahead of the radar.
    pub open spec fn borders_asked(
        self,
        after: App,
        plan: BorderPlan,
        desired: BorderResolution,
        now: u64,
    ) -> bool {
        &&& after == (App {
            borders: after.borders,
            layers: after.layers,
            radar: after.radar,
            ..self
        })
        &&& self.borders.refreshed(after.borders, desired)
        &&& self.borders.refresh_told(self.layers, after.layers, desired, now)
        &&& after.radar == self.radar.making_way(plan.fetch is Some)
        &&& plan == (BorderPlan {
            fetch: if self.borders.settled(desired) || is_loaded(self.borders.loaded@, desired) {
                None
            } else {
                Some((next_id(self.borders.refresh_id), desired))
            },
            clear_disk: false,
        })
    }

    /// Ask for the borders of a view.
    pub fn request_border_refresh(&mut self, desired: BorderResolution, now: u64) -> (plan:
        BorderPlan)
        requires
            old(self).well_formed(),
        ensures
            final(self).well_formed(),
            old(self).borders_asked(*final(self), plan, desired, now),
    {
        let plan = self.borders.request_border_refresh(&mut self.layers, desired, now);
        self.radar.make_way(plan.fetch.is_some());
        plan
    }

    /// The view moved: its radar frame and its borders are asked for, and
    /// readings unless they are on their way.
    pub fn request_viewport_refresh(
        &mut self,
        bounds: Bounds,
        z: u8,
        desired: BorderResolution,
        now: u64,
    ) -> (plan: ViewPlan)
        requires
            old(self).well_formed(),
            z <= 31,
            now <= CLOCK_LIMIT,
        ensures
            final(self).well_formed(),
            exists|a: App, b: App|
                {
                    &&& #[trigger] old(self).radar_asked(a, plan.radar, bounds, z, now)
                    &&& #[trigger] a.borders_asked(b, plan.borders, desired, now)
                    &&& if old(self).obs@.running {
                        *final(self) == b && plan.obs is None
                    } else {
                        b.readings_asked(*final(self), plan.obs, now)
                    }
                },
    {
        let radar = self.request_meteogate_refresh(bounds, z, now);
        let ghost a = *self;
        let borders = self.request_border_refresh(desired, now);
        let ghost b = *self;
        let obs = if !self.obs.has_obs_task() {
            self.request_obs_refresh(now)
        } else {
            None
        };
        proof {
            assert(old(self).radar_asked(a, radar, bounds, z, now));
            assert(a.borders_asked(b, borders, desired, now));
        }
        ViewPlan { radar, borders, obs }
    }

    /// Take in a list of slots. A new list has the frame on screen asked for,
    /// where the radar is drawn.
    pub fn drain_frame_list(&mut self, list: Vec<i64>, bounds: Bounds, z: u8, now: u64) -> (r: (
        bool,
        Option<RadarPlan>,
    ))
        requires
            old(self).well_formed(),
            z <= 31,
            now <= CLOCK_LIMIT,
        ensures
            final(self).well_formed(),
            r.0 == (list@.len() > 0 && list@ != old(self).timeline@.slots),
            final(self).timeline@ == if r.0 {
                old(self).timeline@.adopting(list@, 0)
            } else {
                old(self).timeline@
            },
            r.1 is Some <==> r.0 && old(self).layers.shown(LayerId::Radar),
            match r.1 {
                Some(plan) => (App {
                    timeline: final(self).timeline,
                    ..*old(self)
                }).radar_asked(*final(self), plan, bounds, z, now),
                None => *final(self) == (App { timeline: final(self).timeline, ..*old(self) }),
            },
    {
        if !self.timeline.drain_frame_list(list) {
            return (false, None);
        }
        if !self.layers.enabled(LayerId::Radar) {
            return (true, None);
        }
        (true, Some(self.request_meteogate_refresh(bounds, z, now)))
    }

    /// The key of the observations' provider changed: readings are asked for
    /// anew, where some are drawn.
    pub fn rebuild_eumetnet_provider(&mut self, now: u64) -> (plan: Option<ObsPlan>)
        requires
            old(self).well_formed(),
        ensures
            final(self).well_formed(),
            old(self).readings_asked(*final(self), plan, now),
    {
        self.request_obs_refresh(now)
    }

    /// The program with other settings.
    pub open spec fn with_settings(self, config: Config, settings: SettingsModal) -> App {
        App { config, settings, ..self }
    }

    /// Whether readings were asked for, where their provider was made anew.
    pub open spec fn provider_remade(
        self,
        after: App,
        remade: bool,
        plan: Option<ObsPlan>,
        now: u64,
    ) -> bool {
        if remade {
            self.readings_asked(after, plan, now)
        } else {
            after == self && plan is None
        }
    }

    /// Whether a check of a key was asked for.
    pub open spec fn check_asked(
        self,
        after: App,
        plan: VerifyPlan,
        target: VerifyTarget,
        key: Seq<char>,
    ) -> bool {
        &&& after == (App {
            verify: Verify {
                refresh_id: next_id(self.verify.refresh_id),
                running: true,
                last_verify: self.verify.last_verify,
            },
            ids: TaskIds { next: next_id(self.ids.next) },
            ..self
        })
        &&& plan.abort == self.verify.running
        &&& plan.id == next_id(self.verify.refresh_id)
        &&& plan.target == target
        &&& plan.candidate_key@ == key
        &&& announces(plan.start, self.ids.next, "verify"@, TaskKind::Verify)
        &&& plan.progress matches TaskMsg::Progress { id, action, fraction } && id == self.ids.next
            && action@ == Seq::<char>::empty() && fraction is None
    }

    /// Ask for a check of a key.
    pub fn request_verify(&mut self, target: VerifyTarget, candidate_key: String) -> (plan:
        VerifyPlan)
        requires
            old(self).well_formed(),
        ensures
            final(self).well_formed(),
            old(self).check_asked(*final(self), plan, target, candidate_key@),
    {
        let id = next_task_id(&mut self.ids);
        self.verify.request_verify(target, candidate_key, id)
    }

    /// A setting was written to the file, or could not be: take it over, and
    /// put a new key to use.
    pub fn settings_saved(&mut self, edit: &ConfigEdit, saved: bool, now: u64) -> (plan: SettingsPlan)
        requires
            old(self).well_formed(),
            old(self).settings.session is Some,
        ensures
            final(self).well_formed(),
            applied(old(self).config, final(self).config, *edit, saved),
            old(self).settings.save_noted(final(self).settings, saved),
            plan.rebuild == (saved && sets_key(*edit)),
            plan.verify is Some <==> plan.rebuild && !blank(key_text(*edit)),
            exists|b: App|
                {
                    &&& #[trigger] old(self).with_settings(
                        final(self).config,
                        final(self).settings,
                    ).provider_remade(b, plan.rebuild, plan.obs, now)
                    &&& match plan.verify {
                        Some(p) => b.check_asked(
                            *final(self),
                            p,
                            VerifyTarget::Eumetnet,
                            key_text(*edit),
                        ),
                        None => *final(self) == b,
                    }
                },
    {
        let next = self.settings.settings_saved(&mut self.config, edit, saved);
        let obs = if next.rebuild_eumetnet {
            self.rebuild_eumetnet_provider(now)
        } else {
            None
        };
        let ghost b = *self;
        let verify = match next.verify {
            Some(key) => Some(self.request_verify(VerifyTarget::Eumetnet, key)),
            None => None,
        };
        let plan = SettingsPlan { rebuild: next.rebuild_eumetnet, obs, verify };
        assert(old(self).with_settings(self.config, self.settings).provider_remade(
            b,
            plan.rebuild,
            plan.obs,
            now,
        ));
        plan
    }

    /// What is saved of the session, with the view as it is.
    pub fn save_state(&self, view: StartView) -> (s: StateConfig)
        requires
            self.well_formed(),
        ensures
            s.center_lat == view.lat,
            s.center_lon == view.lon,
            s.zoom == view.zoom,
            s.selected_layer == self.layers.cursor().target(),
            s.known_layers@ == layer_order(),
            s.enabled_layers@ == layer_order().filter(|id: LayerId| self.layers.state(id).enabled),
            s.render_modes@ == saved_modes(self.layers.modes()),
            s.braille_layer is None && s.color_layer is None && s.text_layer is None,
            s.lightning_trail_minutes == Some(self.lightning.trail_minutes),
            s.history_hours == Some(self.timeline@.hours),
    {
        save_state(
            &self.layers,
            view.lat,
            view.lon,
            view.zoom,
            self.lightning.trail_minutes,
            self.timeline.history_hours,
        )
    }

    /// Stop everything that is under way.
    pub fn shutdown(&mut self) -> (plan: ShutdownPlan)
        requires
            old(self).well_formed(),
        ensures
            final(self).well_formed(),
            plan == (ShutdownPlan {
                radar_preload: old(self).radar@.preloading,
                radar_refresh: old(self).radar@.refreshing,
                borders: old(self).borders.loading,
                obs: old(self).obs@.running,
                warnings: old(self).warnings.running,
                lightning: old(self).lightning.connected,
            }),
            !final(self).radar@.preloading && !final(self).radar@.refreshing,
            !final(self).borders.loading,
            !final(self).obs@.running,
            !final(self).warnings.running,
            !final(self).lightning.connected,
            final(self).lightning.status is Idle,
            final(self).lightning.strikes == old(self).lightning.strikes,
            final(self).lightning.trail_minutes == old(self).lightning.trail_minutes,
            final(self).radar@ == (RadarModel {
                preloading: false,
                refreshing: false,
                ..old(self).radar@
            }),
            final(self).borders == (BorderCache { loading: false, ..old(self).borders }),
            final(self).obs@ == (ObsModel { running: false, ..old(self).obs@ }),
            final(self).warnings == (Warnings { running: false, ..old(self).warnings }),
            *final(self) == (App {
                radar: final(self).radar,
                borders: final(self).borders,
                obs: final(self).obs,
                warnings: final(self).warnings,
                lightning: final(self).lightning,
                ..*old(self)
            }),
    {
        let plan = ShutdownPlan {
            radar_preload: self.radar.preloading,
            radar_refresh: self.radar.refreshing,
            borders: self.borders.loading,
            obs: self.obs.running,
            warnings: self.warnings.running,
            lightning: self.lightning.abort_lightning(),
        };
        self.radar.preloading = false;
        self.radar.refreshing = false;
        self.borders.loading = false;
        self.obs.running = false;
        self.warnings.running = false;
        plan
    }

    pub fn search_pin(&self) -> (p: Option<GeoPoint>)
        ensures
            p == self.search.pin,
    {
        self.search.pin
    }

    pub fn location_label(&self) -> (r: Option<&str>)
        ensures
            r is Some <==> self.location.label is Some,
            r matches Some(s) ==> s@ == self.location.label->0@,
    {
        match &self.location.label {
            Some(s) => Some(s.as_str()),
            None => None,
        }
    }

    pub fn search_label(&self) -> (r: Option<&str>)
        ensures
            r is Some <==> self.search.label is Some,
            r matches Some(s) ==> s@ == self.search.label->0@,
    {
        match &self.search.label {
            Some(s) => Some(s.as_str()),
            None => None,
        }
    }
}

} // verus!
