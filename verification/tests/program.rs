//! The program as a whole: keys, and what the background sends.

use std::sync::Arc;

use front::app::App;
use front::arrivals::ViewAt;
use front::border_cache::{
    border_download, border_grid, border_start, border_tiles_start, BorderMask, BorderMaskPoint,
    BorderMaskStamp, BorderRefreshPayload, BorderRefreshResult, PRELOAD_BIT,
};
use front::borders::{BorderLayer, BorderLine, BorderLineKind, BorderResolution};
use front::config::{Config, EumetnetConfig};
use front::double::Double;
use front::features::{ObservationPoint, WarningLayer};
use front::frames::RadarFrame;
use front::geo::{Bounds, GeoPoint, WorldPoint};
use front::layers::{LayerId, LayerStatus, RenderMode};
use front::lightning::connected_sentinel;
use front::location::StartView;
use front::modal::ConfirmStep;
use front::observations::{ObsRefreshPayload, ObsRefreshResult};
use front::radar::{
    frame_start, RadarPreloadResult, RadarRefreshPayload, RadarRefreshResult, SlotState,
};
use front::rhythm::{POLL_EVERY, REFRESH_EVERY};
use front::tasks::{TaskKind, TaskMsg};
use front::timeline::{PlaybackMode, PlaybackSpeed};
use front::verify::{VerifyOutcome, VerifyResult, VerifyTarget};
use front::warnings::{WarnRefreshPayload, WarnRefreshResult};

fn d(x: f64) -> Double {
    Double::from_bits(x.to_bits())
}

fn world() -> Bounds {
    Bounds { min_x: d(0.0), max_x: d(1.0), min_y: d(0.0), max_y: d(1.0) }
}

fn view() -> ViewAt {
    ViewAt { bounds: world(), z: 4, desired: BorderResolution::Low110m }
}

fn frame(time: i64) -> RadarFrame {
    RadarFrame { time, path: String::new(), tiles: vec![], missing_tiles: 0, target_zoom: 4 }
}

const SECOND: u64 = 1_000_000_000;

/// A program with three slots, that draws the radar.
fn program() -> App {
    let start = StartView { lat: d(46.0), lon: d(14.0), zoom: d(4.0) };
    let (mut app, _) = App::boot(Config::default(), None, start, None, &vec![], 10, SECOND);
    app.layers.mode_state_mut().assign(RenderMode::Braille, LayerId::Radar);
    app.drain_frame_list(vec![900, 600, 300], world(), 4, SECOND);
    app
}

fn station(id: &str) -> ObservationPoint {
    ObservationPoint {
        point: GeoPoint { lon: d(14.0), lat: d(46.0) },
        world: WorldPoint { x: d(0.5), y: d(0.3) },
        station_id: id.into(),
        wigos_id: id.into(),
        temperature: Some(d(20.0)),
        wind_speed: None,
        wind_direction: None,
        humidity: None,
        pressure: None,
    }
}

#[test]
fn the_timeline_is_walked_with_keys() {
    let mut app = program();
    app.next_frame();
    assert_eq!(app.timeline.frame_index, 1);
    assert_eq!(app.timeline.playback_mode, PlaybackMode::Paused);
    app.previous_frame();
    assert_eq!(app.timeline.playback_mode, PlaybackMode::Live);
    app.previous_frame();
    assert_eq!(app.timeline.frame_index, 2, "past the newest comes the oldest");
    app.toggle_play_pause();
    assert_eq!(app.timeline.playback_mode, PlaybackMode::Playing);
    app.playback_step();
    assert_eq!(app.timeline.frame_index, 1);
    app.speed_faster();
    assert_eq!(app.timeline.playback_speed, PlaybackSpeed::Double);
    app.speed_slower();
    app.speed_slower();
    assert_eq!(app.timeline.playback_speed, PlaybackSpeed::Half);
    app.jump_to_live();
    assert_eq!(app.timeline.frame_index, 0);
    assert!(app.poll_radar_timestamps(), "these slots are long past");
    app.cycle_history(vec![300]);
    assert_eq!(app.timeline.history_hours, 6);
    assert_eq!(app.slot_state(300), SlotState::OnDisk);
}

#[test]
fn results_are_taken_in_together() {
    let mut app = program();
    assert_eq!(app.frame_label(), "no frame");
    let id = app.radar.refresh_id;
    let layer = |resolution| {
        Arc::new(BorderLayer { resolution, lines: Vec::<BorderLine>::new(), grid: None })
    };
    let (changed, plans) = app.drain_refresh_results(
        vec![
            RadarRefreshResult { id: id + 1, result: RadarRefreshPayload::Ready(frame(600)) },
            RadarRefreshResult { id, result: RadarRefreshPayload::Ready(frame(900)) },
        ],
        vec![
            BorderRefreshResult {
                id: PRELOAD_BIT,
                result: BorderRefreshPayload::Ready(layer(BorderResolution::High10m)),
            },
            BorderRefreshResult {
                id: app.borders.refresh_id,
                result: BorderRefreshPayload::Ready(layer(BorderResolution::Low110m)),
            },
        ],
        &view(),
        2 * SECOND,
    );
    assert!(changed);
    assert_eq!(plans.len(), 2);
    assert!(plans[0].preload.is_empty(), "a message of another fetch is ignored");
    assert_eq!(plans[1].preload, vec![600, 300], "the other slots are fetched ahead");
    assert_eq!(app.radar.frame.as_ref().unwrap().time, 900);
    assert_eq!(app.borders.loaded.len(), 2);
    assert_eq!(app.borders.borders.as_ref().unwrap().resolution, BorderResolution::Low110m);
    assert!(!app.borders.loading);

    let (changed, plans) = app.drain_refresh_results(vec![], vec![], &view(), 3 * SECOND);
    assert!(!changed && plans.is_empty());

    let failed = RadarPreloadResult { timestamp: 300, tile_zoom: 4, frame: None };
    let loaded = RadarPreloadResult { timestamp: 600, tile_zoom: 4, frame: Some(frame(600)) };
    assert!(app.drain_preload_results(vec![failed, loaded], 4, 3 * SECOND));
    assert_eq!(app.slot_state(600), SlotState::InRam);
    assert_eq!(app.slot_state(300), SlotState::Missing);
    let plan = app.retry_due_frames(world(), 4, 4_000 * SECOND);
    assert_eq!(plan.preload, vec![300], "what failed is asked for again");
}

#[test]
fn written_tiles_count_once() {
    let mut app = program();
    let built = |r| BorderRefreshResult { id: 99, result: BorderRefreshPayload::TilesBuilt(r) };
    let (changed, _) = app.drain_refresh_results(
        vec![],
        vec![
            built(BorderResolution::Low110m),
            built(BorderResolution::Low110m),
            built(BorderResolution::High10m),
        ],
        &view(),
        2 * SECOND,
    );
    assert!(!changed);
    assert_eq!(app.borders.border_tiles_built(), 2);
}

#[test]
fn few_frames_stay_in_memory() {
    let mut app = program();
    let slots: Vec<i64> = (1..=60).rev().map(|i| i * 300).collect();
    app.drain_frame_list(slots.clone(), world(), 4, SECOND);
    let all = slots
        .iter()
        .map(|&ts| RadarPreloadResult { timestamp: ts, tile_zoom: 4, frame: Some(frame(ts)) })
        .collect();
    assert!(app.drain_preload_results(all, 4, 2 * SECOND));
    let kept: Vec<i64> =
        slots.iter().copied().filter(|&ts| app.slot_state(ts) == SlotState::InRam).collect();
    assert_eq!(kept.len(), 48);
    assert!(kept.contains(&18_000), "the one on screen stays");
    assert_eq!(app.slot_state(9_000), SlotState::OnDisk, "the farthest goes");
}

#[test]
fn borders_come_before_fetches_ahead() {
    let mut app = program();
    let id = app.radar.refresh_id;
    let ready = RadarRefreshResult { id, result: RadarRefreshPayload::Ready(frame(900)) };
    app.drain_refresh_results(vec![ready], vec![], &view(), 2 * SECOND);
    assert!(app.radar.preloading);
    let plan = app.request_border_layer(BorderResolution::High10m, 3 * SECOND);
    assert_eq!(plan.fetch.unwrap().1, BorderResolution::High10m);
    assert!(!app.radar.preloading);
    let plan = app.request_border_layer(BorderResolution::High10m, 3 * SECOND);
    assert!(plan.fetch.is_none(), "it is on its way");
    let plan = app.trigger_radar_preload(4 * SECOND);
    assert_eq!(plan.preload, vec![600, 300]);
    let plan = app.request_border_refetch(BorderResolution::Low110m, 4 * SECOND);
    assert!(plan.clear_disk && plan.fetch.is_some());
    assert!(!app.radar.preloading);
    assert!(app.borders.loaded.is_empty());
    let plan = app.request_border_refresh(BorderResolution::Low110m, 5 * SECOND);
    assert!(plan.fetch.is_none());
}

#[test]
fn readings_and_warnings_are_taken_in() {
    let mut app = program();
    assert!(app.any_obs_enabled() && !app.has_obs_task());
    let plan = app.request_obs_refresh(2 * SECOND).unwrap();
    assert!(app.has_obs_task());
    let id = plan.id;
    let say = |result| ObsRefreshResult { id, result };
    let other = ObsRefreshResult { id: id + 1, result: ObsRefreshPayload::Ready };
    assert!(app.drain_obs_results(
        vec![
            say(ObsRefreshPayload::Point(station("a"))),
            other,
            say(ObsRefreshPayload::Ready),
            say(ObsRefreshPayload::Done),
        ],
        77,
        3 * SECOND,
    ));
    let shown = app.obs.cache.as_ref().unwrap();
    assert_eq!(shown.points.len(), 1);
    assert_eq!(shown.updated_at, Some(77));
    assert!(!app.has_obs_task());
    app.set_obs_status(LayerStatus::Idle, 4 * SECOND);

    assert!(app.request_warning_refresh(4 * SECOND).is_none(), "they are not drawn");
    app.layers.mode_state_mut().assign(RenderMode::Color, LayerId::MeteoAlarm);
    let plan = app.request_warning_refresh(4 * SECOND).unwrap();
    assert!(matches!(plan.start, TaskMsg::Start { ref label, .. } if label == "warnings"));
    let layer = WarningLayer { features: vec![], updated_at: Some(5) };
    let error = WarnRefreshPayload::Error("no network".to_string());
    assert!(app.drain_warning_results(
        vec![
            WarnRefreshResult { id: plan.id, result: WarnRefreshPayload::Ready(layer) },
            WarnRefreshResult { id: plan.id + 1, result: error },
        ],
        5 * SECOND,
    ));
    assert_eq!(app.warnings.layer.as_ref().unwrap().updated_at, Some(5));
    assert!(!app.drain_warning_results(vec![], 6 * SECOND));
}

#[test]
fn a_place_is_typed_and_looked_up() {
    let mut app = program();
    assert!(!app.search_is_open() && app.submit_search().is_none());
    app.open_search();
    for c in " Ljub ".chars() {
        app.search_push_char(c);
    }
    app.search_backspace();
    app.search_push_char('x');
    assert!(app.open_settings().is_none(), "one thing at a time");
    assert!(!app.settings_is_open());
    let plan = app.submit_search().unwrap();
    assert_eq!(plan.query, "Ljubx");
    assert!(!app.search_is_open());
    assert_eq!(app.search.status.as_deref(), Some("Searching for \"Ljubx\"\u{2026}"));
    app.open_search();
    app.cancel_search();
    assert!(!app.search_is_open());
    app.clear_search_pin();
    assert!(app.search_pin().is_none());
    assert!(app.location_fix().is_none());
}

#[test]
fn names_are_for_the_place_asked_about() {
    let mut app = program();
    let here = GeoPoint { lon: d(14.5), lat: d(46.0) };
    let there = GeoPoint { lon: d(2.0), lat: d(48.0) };
    app.location.request_location_label(here, false);
    let name = |s: &str| Some(s.to_string());
    assert!(app.drain_pin_labels(vec![(there, name("Paris")), (here, name("Ljubljana"))]));
    assert_eq!(app.location_label(), Some("Ljubljana"));
    assert!(!app.drain_pin_labels(vec![(here, name("Ljubljana"))]));
}

#[test]
fn the_key_is_edited_and_checked() {
    let mut app = program();
    app.config.eumetnet.api_key = " old ".to_string();
    let plan = app.open_settings().unwrap();
    assert_eq!(plan.candidate_key, "old");
    assert_eq!(plan.target, VerifyTarget::Eumetnet);
    let result = |id, outcome| VerifyResult { id, target: VerifyTarget::Eumetnet, outcome };
    assert!(app.drain_verify_results(&vec![
        result(plan.id, VerifyOutcome::Valid),
        result(plan.id + 1, VerifyOutcome::Invalid),
    ]));
    assert_eq!(app.verify.last_verify, Some((VerifyTarget::Eumetnet, VerifyOutcome::Valid)));
    assert!(!app.drain_verify_results(&vec![]));
    assert!(app.settings_link_index_at(0, 0).is_none());
    app.settings_focus_next();
    app.settings_focus_next();
    app.settings_focus_prev();
    assert_eq!(app.settings.session.as_ref().unwrap().model.focus, 1);
    assert!(matches!(app.settings_confirm(), ConfirmStep::Nothing));
    app.settings_toggle_bool();
    assert!(matches!(app.settings_confirm(), ConfirmStep::Save(_)));
    app.settings_back();
    app.settings_focus_prev();
    assert!(matches!(app.settings_confirm(), ConfirmStep::Nothing));
    app.settings_push_char('x');
    assert!(app.verify.last_verify.is_none(), "an edit voids the check");
    app.settings_backspace();
    assert!(matches!(app.settings_confirm(), ConfirmStep::Nothing), "nothing has changed");
    app.settings_back();
    assert!(!app.settings_is_open());
}

#[test]
fn white_space_calls_for_no_new_provider() {
    let key = |s: &str| EumetnetConfig { api_key: s.to_string(), ..EumetnetConfig::default() };
    assert!(!App::eumetnet_rebuild_needed(&key("abc"), &key(" abc ")));
    assert!(App::eumetnet_rebuild_needed(&key("abc"), &key("abd")));
}

#[test]
fn strikes_come_through_an_open_stream() {
    let mut app = program();
    assert!(!app.request_lightning_connect());
    let strike = WorldPoint { x: d(0.5), y: d(0.25) };
    assert!(app.drain_lightning_results(&[(connected_sentinel(), 0), (strike, 1)], 10 * SECOND));
    assert!(matches!(app.lightning.status, LayerStatus::Ready));
    assert_eq!(app.lightning.strikes.len(), 1);
    assert!(app.has_lightning_impact(10 * SECOND));
    assert!(!app.has_lightning_impact(100 * SECOND));
    assert!(app.abort_lightning());
    assert!(!app.abort_lightning());
}

#[test]
fn borders_are_drawn_anew_where_anything_changed() {
    let mut app = program();
    let stamp = BorderMaskStamp {
        zoom_bits: 4.0f64.to_bits(),
        resolution: BorderResolution::Low110m,
        show_regions: true,
        show_roads: false,
        width: 80,
        height: 24,
        layers_version: app.borders.version,
    };
    assert!(!app.borders.mask_holds(stamp));
    let drawn = BorderMask {
        cells: vec![Some(BorderLineKind::Country), None],
        marks: vec![BorderMaskPoint { sx: 1, sy: 2, kind: BorderLineKind::Country }],
        center: WorldPoint { x: d(0.5), y: d(0.5) },
    };
    app.borders.mask = Some((stamp, drawn));
    assert!(app.borders.mask_holds(stamp));
    assert!(!app.borders.mask_holds(BorderMaskStamp { width: 81, ..stamp }));
    app.request_border_refetch(BorderResolution::Low110m, 2 * SECOND);
    assert!(!app.borders.mask_holds(stamp));
}

#[test]
fn the_clock_says_what_is_due() {
    let mut app = program();
    let at = 10 * SECOND;
    let due = app.due(at, at, at + SECOND);
    assert!(!due.step && !due.poll && due.obs && due.warnings, "nothing was fetched yet");
    assert!(app.due(at, at, at + POLL_EVERY).poll);
    assert!(!app.due(at, at, at + POLL_EVERY - 1).poll);
    app.timeline.playback_mode = PlaybackMode::Playing;
    app.timeline.playback_speed = PlaybackSpeed::Quad;
    assert!(app.due(at, at, at + SECOND / 4).step);
    assert!(!app.due(at, at, at + SECOND / 4 - 1).step);
    assert!(!app.due(at, at, 0).step, "a clock that went back waits");
    app.request_obs_refresh(at).unwrap();
    assert!(!app.due(at, at, at + REFRESH_EVERY).obs, "readings are on their way");
    app.request_warning_refresh(at).unwrap();
    app.warnings.running = false;
    assert!(!app.due(at, at, at + REFRESH_EVERY - 1).warnings);
    assert!(app.due(at, at, at + REFRESH_EVERY).warnings);
}

fn started(m: TaskMsg) -> (u64, String, TaskKind) {
    match m {
        TaskMsg::Start { id, label, kind } => (id, label, kind),
        _ => panic!("no start"),
    }
}

fn progressed(m: TaskMsg) -> (u64, String, Option<Double>) {
    match m {
        TaskMsg::Progress { id, action, fraction } => (id, action, fraction),
        _ => panic!("no progress"),
    }
}

#[test]
fn the_overlay_names_what_is_fetched() {
    let r = BorderResolution::Medium50m;
    assert_eq!(started(frame_start(-300, 4)), (4, "frame -300".into(), TaskKind::RadarFrame));
    assert_eq!(started(border_start(r, false, 5)), (5, "50m borders".into(), TaskKind::BorderDownload));
    assert_eq!(started(border_start(r, true, 5)), (5, "border 50m".into(), TaskKind::BorderDownload));
    assert_eq!(
        started(border_tiles_start(r, false, 6)),
        (6, "50m tiles".into(), TaskKind::BorderTileGen)
    );
    assert_eq!(started(border_tiles_start(r, true, 6)), (6, "tiles 50m".into(), TaskKind::BorderTileGen));
    assert_eq!(
        progressed(border_download(r, 7)),
        (7, "downloading 50m geo\u{2026}".into(), Some(d(0.3)))
    );
    assert_eq!(progressed(border_grid(8)), (8, "building grid".into(), Some(d(0.8))));
}

#[test]
fn flat_boxes_are_none() {
    assert!(BorderLine::is_bbox_degenerate(d(0.0), d(1.0)));
    assert!(BorderLine::is_bbox_degenerate(d(1.0), d(9e-13)));
    assert!(!BorderLine::is_bbox_degenerate(d(1e-12), d(1e-12)));
}
