//! What the keys and the mouse do to the program.

use vstd::prelude::*;

use crate::app::{announces, App};
use crate::border_cache::{BorderCache, BorderPlan};
use crate::borders::BorderResolution;
use crate::calendar::{is_clock_text, on_calendar};
use crate::config::EumetnetConfig;
use crate::geo::Bounds;
use crate::geocode::text_model;
use crate::layers::{LayerId, LayerStatus};
use crate::lightning::{flashing, LightningTrail};
use crate::location::LocationFix;
use crate::modal::{first_link, opened, ConfirmStep};
use crate::observations::{obs_enabled, obs_updated};
use crate::radar::{
    cycled, next_id, PlanModel, RadarModel, RadarPlan, SlotState, CLOCK_LIMIT,
};
use crate::search::{Search, SearchPlan};
use crate::tasks::{next_task_id, TaskIds, TaskKind};
use crate::text::{blank, shortened, signed, trimmed};
use crate::timeline::{
    hours_after, same_newest, slots_at, Step, TimelineModel,
};
use crate::verify::{VerifyPlan, VerifyTarget};
use crate::warnings::{WarnPlan, Warnings};

verus! {

/// The timeline.
impl App {
    /// Step to the next older slot, past the oldest to the newest.
    pub fn next_frame(&mut self)
        requires
            old(self).well_formed(),
        ensures
            final(self).well_formed(),
            final(self).timeline@ == old(self).timeline@.moved(Step::Older),
            *final(self) == (App { timeline: final(self).timeline, ..*old(self) }),
    {
        self.timeline.next_frame();
    }

    /// Step to the next newer slot, past the newest to the oldest.
    pub fn previous_frame(&mut self)
        requires
            old(self).well_formed(),
        ensures
            final(self).well_formed(),
            final(self).timeline@ == old(self).timeline@.moved(Step::Newer),
            *final(self) == (App { timeline: final(self).timeline, ..*old(self) }),
    {
        self.timeline.previous_frame();
    }

    /// Go back to the newest slot, and follow it.
    pub fn jump_to_live(&mut self)
        requires
            old(self).well_formed(),
        ensures
            final(self).well_formed(),
            final(self).timeline@ == old(self).timeline@.live(),
            *final(self) == (App { timeline: final(self).timeline, ..*old(self) }),
    {
        self.timeline.jump_to_live();
    }

    /// Start or stop playing.
    pub fn toggle_play_pause(&mut self)
        requires
            old(self).well_formed(),
        ensures
            final(self).well_formed(),
            final(self).timeline@ == old(self).timeline@.play_toggled(),
            *final(self) == (App { timeline: final(self).timeline, ..*old(self) }),
    {
        self.timeline.toggle_play_pause();
    }

    /// One step of playing.
    pub fn playback_step(&mut self)
        requires
            old(self).well_formed(),
        ensures
            final(self).well_formed(),
            final(self).timeline@ == old(self).timeline@.played(),
            *final(self) == (App { timeline: final(self).timeline, ..*old(self) }),
    {
        self.timeline.playback_step();
    }

    pub fn speed_faster(&mut self)
        requires
            old(self).well_formed(),
        ensures
            final(self).well_formed(),
            final(self).timeline@ == (TimelineModel {
                speed: old(self).timeline@.speed.up(),
                ..old(self).timeline@
            }),
            *final(self) == (App { timeline: final(self).timeline, ..*old(self) }),
    {
        self.timeline.speed_faster();
    }

    pub fn speed_slower(&mut self)
        requires
            old(self).well_formed(),
        ensures
            final(self).well_formed(),
            final(self).timeline@ == (TimelineModel {
                speed: old(self).timeline@.speed.down(),
                ..old(self).timeline@
            }),
            *final(self) == (App { timeline: final(self).timeline, ..*old(self) }),
    {
        self.timeline.speed_slower();
    }

    /// Follow the clock: whether a newer slot has opened.
    pub fn poll_radar_timestamps(&mut self) -> (changed: bool)
        requires
            old(self).well_formed(),
        ensures
            final(self).well_formed(),
            exists|now: i64|
                0 <= now && {
                    let fresh = #[trigger] slots_at(now as int, old(self).timeline@.hours);
                    &&& changed == !same_newest(old(self).timeline@.slots, fresh)
                    &&& final(self).timeline@ == if changed {
                        old(self).timeline@.adopting(fresh, 0)
                    } else {
                        old(self).timeline@
                    }
                },
            *final(self) == (App { timeline: final(self).timeline, ..*old(self) }),
    {
        self.timeline.poll_radar_timestamps()
    }

    /// Go to the next depth of history. Frames that it leaves out are
    /// forgotten; those on disk are as `disk` says.
    pub fn cycle_history(&mut self, disk: Vec<i64>)
        requires
            old(self).well_formed(),
        ensures
            final(self).well_formed(),
            exists|now: i64|
                0 <= now && final(self).timeline@ == cycled(
                    old(self).timeline@,
                    #[trigger] slots_at(now as int, hours_after(old(self).timeline@.hours)),
                ),
            final(self).radar@ == (RadarModel {
                cache: old(self).radar@.cache.restrict(final(self).timeline@.slots.to_set()),
                disk: disk@.to_set(),
                ..old(self).radar@
            }),
            *final(self) == (App {
                timeline: final(self).timeline,
                radar: final(self).radar,
                ..*old(self)
            }),
    {
        self.radar.cycle_history(&mut self.timeline, disk);
    }
}

/// The radar and the borders.
impl App {
    /// Fetch ahead the slots near the one on screen.
    pub fn trigger_radar_preload(&mut self, now: u64) -> (plan: RadarPlan)
        requires
            old(self).well_formed(),
            now <= CLOCK_LIMIT,
        ensures
            final(self).well_formed(),
            ({
                let shown = old(self).layers.shown(LayerId::Radar);
                let t = old(self).timeline@;
                &&& final(self).radar@ == old(self).radar@.preload_started(t, shown, now)
                &&& plan@ == old(self).radar@.preload_plan(t, shown, now)
            }),
            *final(self) == (App { radar: final(self).radar, ..*old(self) }),
    {
        self.radar.trigger_radar_preload(&self.timeline, &self.layers, now)
    }

    /// Ask again for what failed and has waited long enough.
    pub fn retry_due_frames(&mut self, bounds: Bounds, z: u8, now: u64) -> (plan: RadarPlan)
        requires
            old(self).well_formed(),
            z <= 31,
            now <= CLOCK_LIMIT,
        ensures
            final(self).well_formed(),
            *final(self) == (App {
                radar: final(self).radar,
                layers: final(self).layers,
                ..*old(self)
            }),
            ({
                let m0 = old(self).radar@;
                let t = old(self).timeline@;
                let shown = old(self).layers.shown(LayerId::Radar);
                let m = m0.on_timeline(t);
                if m0.failures.dom().len() == 0 || m0.dragging {
                    &&& final(self).radar@ == m0
                    &&& plan@ == PlanModel::nothing()
                    &&& final(self).layers == old(self).layers
                } else if m.shown_due(t, now) {
                    let h = m.shown_held(t.current()->0, now);
                    &&& final(self).radar@ == h.refresh_asked(t, shown, bounds, z, now)
                    &&& plan@ == h.refresh_plan(t, shown, bounds, z, now)
                    &&& match h.refresh_status(t, shown, bounds, z) {
                        Some(status) => old(self).layers.updated(
                            final(self).layers,
                            LayerId::Radar,
                            status,
                            now,
                        ),
                        None => final(self).layers == old(self).layers,
                    }
                } else if m.some_due(now) {
                    &&& final(self).radar@ == m.preload_started(t, shown, now)
                    &&& plan@ == m.preload_plan(t, shown, now)
                    &&& final(self).layers == old(self).layers
                } else {
                    &&& final(self).radar@ == m
                    &&& plan@ == PlanModel::nothing()
                    &&& final(self).layers == old(self).layers
                }
            }),
    {
        self.radar.retry_due_frames(&self.timeline, &mut self.layers, bounds, z, now)
    }

    /// Where the frame of a slot is.
    pub fn slot_state(&self, ts: i64) -> (s: SlotState)
        requires
            self.well_formed(),
        ensures
            s == if self.radar@.cache.dom().contains(ts) {
                SlotState::InRam
            } else if self.radar@.disk.contains(ts) {
                SlotState::OnDisk
            } else {
                SlotState::Missing
            },
    {
        self.radar.slot_state(ts)
    }

    /// The time of the frame on screen, on the local clock.
    pub fn frame_label(&self) -> (s: String)
        ensures
            self.radar.frame is None ==> s@ == "no frame"@,
            self.radar.frame matches Some(f) ==> !on_calendar(f.time) ==> s@ == signed(
                f.time as int,
            ),
            self.radar.frame matches Some(f) ==> on_calendar(f.time) ==> is_clock_text(s@),
    {
        self.radar.frame_label()
    }

    /// Load the borders of a resolution, whatever the view.
    pub fn request_border_layer(&mut self, resolution: BorderResolution, now: u64) -> (plan:
        BorderPlan)
        requires
            old(self).well_formed(),
        ensures
            final(self).well_formed(),
            if old(self).borders.has_or_awaits(resolution) {
                &&& *final(self) == *old(self)
                &&& plan == (BorderPlan { fetch: None, clear_disk: false })
            } else {
                &&& *final(self) == (App {
                    borders: final(self).borders,
                    layers: final(self).layers,
                    radar: old(self).radar.making_way(true),
                    ..*old(self)
                })
                &&& old(self).borders.fetch_started(final(self).borders, resolution)
                &&& old(self).layers.updated(
                    final(self).layers,
                    LayerId::MapBorders,
                    LayerStatus::Loading,
                    now,
                )
                &&& plan == (BorderPlan {
                    fetch: Some((final(self).borders.refresh_id, resolution)),
                    clear_disk: false,
                })
            },
    {
        let plan = self.borders.request_border_layer(&mut self.layers, resolution, now);
        self.radar.make_way(plan.fetch.is_some());
        plan
    }

    /// Forget all borders and fetch those of the view anew.
    pub fn request_border_refetch(&mut self, desired: BorderResolution, now: u64) -> (plan:
        BorderPlan)
        requires
            old(self).well_formed(),
        ensures
            final(self).well_formed(),
            final(self).borders.loaded@.len() == 0,
            *final(self) == (App {
                borders: BorderCache {
                    loaded: final(self).borders.loaded,
                    version: next_id(old(self).borders.version),
                    mask: None,
                    fetching: Some(desired),
                    loading: true,
                    refresh_id: next_id(old(self).borders.refresh_id),
                    ..old(self).borders
                },
                layers: final(self).layers,
                radar: old(self).radar.making_way(true),
                ..*old(self)
            }),
            old(self).layers.updated(
                final(self).layers,
                LayerId::MapBorders,
                LayerStatus::Loading,
                now,
            ),
            plan == (BorderPlan {
                fetch: Some((next_id(old(self).borders.refresh_id), desired)),
                clear_disk: true,
            }),
    {
        let plan = self.borders.request_border_refetch(&mut self.layers, desired, now);
        self.radar.make_way(plan.fetch.is_some());
        plan
    }
}

/// Warnings, observations and lightning.
impl App {
    /// Ask for the warnings where they are drawn.
    pub fn request_warning_refresh(&mut self, now: u64) -> (plan: Option<WarnPlan>)
        requires
            old(self).well_formed(),
        ensures
            final(self).well_formed(),
            if old(self).layers.shown(LayerId::MeteoAlarm) {
                &&& *final(self) == (App {
                    warnings: Warnings {
                        refresh_id: next_id(old(self).warnings.refresh_id),
                        running: true,
                        last_attempt: Some(now),
                        layer: old(self).warnings.layer,
                    },
                    layers: final(self).layers,
                    ids: TaskIds { next: next_id(old(self).ids.next) },
                    ..*old(self)
                })
                &&& old(self).layers.updated(
                    final(self).layers,
                    LayerId::MeteoAlarm,
                    LayerStatus::Loading,
                    now,
                )
                &&& plan matches Some(p) && p.abort == old(self).warnings.running && p.id
                    == next_id(old(self).warnings.refresh_id) && announces(
                    p.start,
                    old(self).ids.next,
                    "warnings"@,
                    TaskKind::Warning,
                )
            } else {
                *final(self) == *old(self) && plan is None
            },
    {
        if !self.layers.enabled(LayerId::MeteoAlarm) {
            return None;
        }
        let id = next_task_id(&mut self.ids);
        self.warnings.request_warning_refresh(&mut self.layers, now, id)
    }

    /// Whether some kind of observation is drawn.
    pub fn any_obs_enabled(&self) -> (r: bool)
        requires
            self.well_formed(),
        ensures
            r == obs_enabled(self.layers),
    {
        crate::observations::any_obs_enabled(&self.layers)
    }

    /// Record what the observation layers are doing.
    pub fn set_obs_status(&mut self, status: LayerStatus, now: u64)
        requires
            old(self).well_formed(),
        ensures
            final(self).well_formed(),
            obs_updated(old(self).layers, final(self).layers, status, now),
            *final(self) == (App { layers: final(self).layers, ..*old(self) }),
    {
        crate::observations::set_obs_status(&mut self.layers, status, now);
    }

    /// Whether readings are on their way.
    pub fn has_obs_task(&self) -> (r: bool)
        ensures
            r == self.obs@.running,
    {
        self.obs.has_obs_task()
    }

    /// Whether an edited configuration calls for a new provider of observations.
    pub fn eumetnet_rebuild_needed(before: &EumetnetConfig, after: &EumetnetConfig) -> (r: bool)
        ensures
            r == (trimmed(before.api_key@) != trimmed(after.api_key@)),
    {
        crate::config::eumetnet_rebuild_needed(before, after)
    }

    /// Open the stream of strikes: whether one is to be closed first.
    pub fn request_lightning_connect(&mut self) -> (close: bool)
        requires
            old(self).well_formed(),
        ensures
            final(self).well_formed(),
            close == old(self).lightning.connected,
            *final(self) == (App {
                lightning: LightningTrail {
                    connected: true,
                    status: LayerStatus::Loading,
                    ..old(self).lightning
                },
                ..*old(self)
            }),
    {
        self.lightning.request_lightning_connect()
    }

    /// Close the stream of strikes: whether one is open.
    pub fn abort_lightning(&mut self) -> (close: bool)
        requires
            old(self).well_formed(),
        ensures
            final(self).well_formed(),
            close == old(self).lightning.connected,
            *final(self) == (App {
                lightning: LightningTrail {
                    connected: false,
                    status: LayerStatus::Idle,
                    ..old(self).lightning
                },
                ..*old(self)
            }),
    {
        self.lightning.abort_lightning()
    }

    /// Whether a strike is still flashing.
    pub fn has_lightning_impact(&self, now: u64) -> (r: bool)
        ensures
            r == flashing(self.lightning.strikes@, now),
    {
        self.lightning.has_lightning_impact(now)
    }

    /// The best position known.
    pub fn location_fix(&self) -> (r: Option<LocationFix>)
        ensures
            r == self.location.arbiter.holds(),
    {
        self.location.arbiter.current()
    }
}

/// The search prompt.
impl App {
    /// Open the prompt, empty.
    pub fn open_search(&mut self)
        requires
            old(self).well_formed(),
        ensures
            final(self).well_formed(),
            *final(self) == (App {
                search: Search {
                    input: final(self).search.input,
                    status: None,
                    ..old(self).search
                },
                ..*old(self)
            }),
            text_model(final(self).search.input) == Some(Seq::<char>::empty()),
    {
        self.search.open_search();
    }

    /// Close the prompt. The pin stays.
    pub fn cancel_search(&mut self)
        requires
            old(self).well_formed(),
        ensures
            final(self).well_formed(),
            *final(self) == (App {
                search: Search { input: None, status: None, ..old(self).search },
                ..*old(self)
            }),
    {
        self.search.cancel_search();
    }

    pub fn search_is_open(&self) -> (r: bool)
        ensures
            r == (self.search.input is Some),
    {
        self.search.search_is_open()
    }

    /// A character for the prompt.
    pub fn search_push_char(&mut self, c: char)
        requires
            old(self).well_formed(),
        ensures
            final(self).well_formed(),
            *final(self) == (App {
                search: Search { input: final(self).search.input, ..old(self).search },
                ..*old(self)
            }),
            text_model(final(self).search.input) == match old(self).search.input {
                Some(t) => Some(t@.push(c)),
                None => None,
            },
    {
        self.search.search_push_char(c);
    }

    /// Take back the last character of the prompt.
    pub fn search_backspace(&mut self)
        requires
            old(self).well_formed(),
        ensures
            final(self).well_formed(),
            *final(self) == (App {
                search: Search { input: final(self).search.input, ..old(self).search },
                ..*old(self)
            }),
            text_model(final(self).search.input) == match old(self).search.input {
                Some(t) => Some(shortened(t@)),
                None => None,
            },
    {
        self.search.search_backspace();
    }

    /// Take the pin off the map.
    pub fn clear_search_pin(&mut self)
        requires
            old(self).well_formed(),
        ensures
            final(self).well_formed(),
            *final(self) == (App {
                search: Search {
                    pin: None,
                    label: None,
                    pin_shown: false,
                    layer_status: LayerStatus::Idle,
                    ..old(self).search
                },
                ..*old(self)
            }),
    {
        self.search.clear_search_pin();
    }

    /// Look up what the prompt holds, and close it.
    pub fn submit_search(&mut self) -> (plan: Option<SearchPlan>)
        requires
            old(self).well_formed(),
        ensures
            final(self).well_formed(),
            match old(self).search.input {
                None => plan is None && *final(self) == *old(self),
                Some(t) => if blank(t@) {
                    &&& plan is None
                    &&& *final(self) == (App {
                        search: Search { input: None, status: None, ..old(self).search },
                        ..*old(self)
                    })
                } else {
                    &&& plan matches Some(p) && p.abort == old(self).search.running && p.id
                        == next_id(old(self).search.id) && p.query@ == trimmed(t@)
                    &&& *final(self) == (App {
                        search: Search {
                            input: None,
                            id: next_id(old(self).search.id),
                            running: true,
                            layer_status: LayerStatus::Loading,
                            status: final(self).search.status,
                            ..old(self).search
                        },
                        ..*old(self)
                    })
                    &&& text_model(final(self).search.status) == Some(
                        "Searching for \""@ + trimmed(t@) + "\"\u{2026}"@,
                    )
                },
            },
    {
        self.search.submit_search()
    }
}

/// The settings.
impl App {
    /// Open the settings, unless the prompt or the help is open. A key that is
    /// set is checked.
    pub fn open_settings(&mut self) -> (plan: Option<VerifyPlan>)
        requires
            old(self).well_formed(),
        ensures
            final(self).well_formed(),
            if old(self).search.input is Some || old(self).show_help {
                *final(self) == *old(self) && plan is None
            } else {
                &&& opened(final(self).settings, old(self).config)
                &&& final(self).settings.links == old(self).settings.links
                &&& plan is Some <==> !blank(old(self).config.eumetnet.api_key@)
                &&& ({
                    let a = App {
                        settings: final(self).settings,
                        verify: old(self).verify.voided(true),
                        ..*old(self)
                    };
                    match plan {
                        Some(p) => a.check_asked(
                            *final(self),
                            p,
                            VerifyTarget::Eumetnet,
                            trimmed(old(self).config.eumetnet.api_key@),
                        ),
                        None => *final(self) == a,
                    }
                })
            },
    {
        let busy = self.search.search_is_open();
        match self.settings.open_settings(&mut self.verify, &self.config, busy, self.show_help) {
            Some(key) => Some(self.request_verify(VerifyTarget::Eumetnet, key)),
            None => None,
        }
    }

    pub fn settings_is_open(&self) -> (r: bool)
        ensures
            r == (self.settings.session is Some),
    {
        self.settings.settings_is_open()
    }

    /// The link under a cell of the screen.
    pub fn settings_link_index_at(&self, col: u16, row: u16) -> (r: Option<usize>)
        ensures
            match r {
                Some(i) => first_link(self.settings.links@, col, row, 0) == Some(i as int),
                None => first_link(self.settings.links@, col, row, 0) is None,
            },
    {
        self.settings.settings_link_index_at(col, row)
    }

    /// Move to the next field, unless one is being edited.
    pub fn settings_focus_next(&mut self)
        requires
            old(self).well_formed(),
        ensures
            final(self).well_formed(),
            old(self).settings.refocused(final(self).settings, true),
            *final(self) == (App { settings: final(self).settings, ..*old(self) }),
    {
        self.settings.settings_focus_next();
    }

    /// Move to the previous field, unless one is being edited.
    pub fn settings_focus_prev(&mut self)
        requires
            old(self).well_formed(),
        ensures
            final(self).well_formed(),
            old(self).settings.refocused(final(self).settings, false),
            *final(self) == (App { settings: final(self).settings, ..*old(self) }),
    {
        self.settings.settings_focus_prev();
    }

    /// A character for the field being edited. The key's check is void.
    pub fn settings_push_char(&mut self, c: char)
        requires
            old(self).well_formed(),
        ensures
            final(self).well_formed(),
            old(self).settings.retyped(
                final(self).settings,
                old(self).settings.staged().pushed(c),
            ),
            *final(self) == (App {
                settings: final(self).settings,
                verify: old(self).verify.voided(old(self).settings.editing()),
                ..*old(self)
            }),
    {
        self.settings.settings_push_char(&mut self.verify, c);
    }

    /// Take back a character of the field being edited. The key's check is
    /// void.
    pub fn settings_backspace(&mut self)
        requires
            old(self).well_formed(),
        ensures
            final(self).well_formed(),
            old(self).settings.retyped(
                final(self).settings,
                old(self).settings.staged().popped(),
            ),
            *final(self) == (App {
                settings: final(self).settings,
                verify: old(self).verify.voided(old(self).settings.editing()),
                ..*old(self)
            }),
    {
        self.settings.settings_backspace(&mut self.verify);
    }

    /// Flip the switch being edited.
    pub fn settings_toggle_bool(&mut self)
        requires
            old(self).well_formed(),
        ensures
            final(self).well_formed(),
            old(self).settings.retyped(
                final(self).settings,
                old(self).settings.staged().flipped(),
            ),
            *final(self) == (App { settings: final(self).settings, ..*old(self) }),
    {
        self.settings.settings_toggle_bool();
    }

    /// Edit the field in focus, or have what was edited saved.
    pub fn settings_confirm(&mut self) -> (step: ConfirmStep)
        requires
            old(self).well_formed(),
        ensures
            final(self).well_formed(),
            old(self).settings.confirmed(final(self).settings, step),
            *final(self) == (App { settings: final(self).settings, ..*old(self) }),
    {
        self.settings.settings_confirm()
    }

    /// Give up what is being edited, or close the settings.
    pub fn settings_back(&mut self)
        requires
            old(self).well_formed(),
        ensures
            final(self).well_formed(),
            old(self).settings.backed_out(final(self).settings),
            *final(self) == (App {
                settings: final(self).settings,
                verify: old(self).verify.voided(old(self).settings.session is Some),
                ..*old(self)
            }),
    {
        self.settings.settings_back(&mut self.verify);
    }
}

} // verus!
