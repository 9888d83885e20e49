
use front::app::App;
use front::borders::BorderResolution;
use front::config::{
    apply_config_edits, Config, ConfigEdit, ConfigEditError, ConfigEditValue,
};
use front::document::MOST_KEYS;
use front::double::Double;
use front::features::{ObservationPoint, WarningFeature, WarningLayer};
use front::flow::{block_cells, neighbor_cells, pyramid_sizes};
use front::frames::RadarFrame;
use front::geo::{Bounds, GeoPoint, WorldPoint};
use front::layers::{LayerId, LayerRegistry, RenderMode};
use front::location::{initial_viewport, LocationFix, LocationSource, StartView};
use front::meteoalarm::{cache_is_fresh, parse_warnings, warnings_url};
use front::modal::{ConfirmStep, SettingsModal};
use front::observations::{
    any_obs_enabled, station_progress, ObsRefreshPayload, ObsRefreshResult, Observations,
};
use front::order::sorted_indices;
use front::radar::{
    tile_progress, tile_zoom, time_label, Radar, RadarPreloadResult, RadarRefreshPayload, RadarRefreshResult,
    SlotState,
};
use front::state::{load_state, restored_history, restored_trail, save_state};
use front::tasks::{next_task_id, TaskIds, TaskKind, TaskMsg, TaskRows};
use front::text::{parse_signed, parse_unsigned, signed_text, trim, without_end};
use front::timeline::Timeline;
use front::verify::{verify_task_message, Verify, VerifyOutcome, VerifyResult, VerifyTarget};
use front::warnings::{WarnRefreshPayload, WarnRefreshResult, Warnings};

fn d(x: f64) -> Double {
    Double::from_bits(x.to_bits())
}

const SECOND: u64 = 1_000_000_000;

#[test]
fn test_config_default_viewport_matches_constants() {
    let cfg = Config::default();
    assert_eq!(cfg.viewport.lat, d(46.05));
    assert_eq!(cfg.viewport.lon, d(14.51));
    assert_eq!(cfg.viewport.zoom, d(4.0));
}

fn edit(key: &str, value: ConfigEditValue) -> ConfigEdit {
    ConfigEdit { key: key.to_string(), value }
}

#[test]
fn test_apply_config_edits_preserves_comments_and_extra_keys() {
    let content = r#"# top-of-file comment
[meteogate]
# a comment right above the key
api_key = "old-key"
my_extra_hand_written_setting = "keep-me"
s3_endpoint = "https://s3.example.invalid"
"#;
    let written = apply_config_edits(
        content,
        &[edit("meteogate.api_key", ConfigEditValue::Str("new-key".to_string()))],
    )
    .unwrap();
    assert!(
        written.contains("# top-of-file comment"),
        "top-of-file comment must survive: {written}"
    );
    assert!(
        written.contains("# a comment right above the key"),
        "comment above edited key must survive: {written}"
    );
    assert!(
        written.contains("my_extra_hand_written_setting = \"keep-me\""),
        "hand-added extra key must survive: {written}"
    );
    let reloaded: toml::Value = toml::from_str(&written).unwrap();
    assert_eq!(reloaded["meteogate"]["api_key"].as_str(), Some("new-key"));
    assert_eq!(
        reloaded["meteogate"]["s3_endpoint"].as_str(),
        Some("https://s3.example.invalid")
    );
}

#[test]
fn test_apply_config_edits_bool_and_string_and_missing_section() {
    let written = apply_config_edits(
        "[viewport]\nlat = 46.05\n",
        &[
            edit("location.ip_fallback", ConfigEditValue::Bool(false)),
            edit("eumetnet.api_key", ConfigEditValue::Str("euk".to_string())),
        ],
    )
    .unwrap();
    let reloaded: toml::Value = toml::from_str(&written).unwrap();
    assert_eq!(reloaded["location"]["ip_fallback"].as_bool(), Some(false));
    assert_eq!(reloaded["eumetnet"]["api_key"].as_str(), Some("euk"));
    assert_eq!(reloaded["viewport"]["lat"].as_float(), Some(46.05));
}

#[test]
fn test_apply_config_edits_refuses_malformed_file() {
    let result = apply_config_edits(
        "this is [ not valid toml",
        &[edit("meteogate.api_key", ConfigEditValue::Str("new-key".to_string()))],
    );
    assert!(result.is_err(), "malformed file must be refused");
    assert_eq!(result.unwrap_err(), ConfigEditError::Malformed);
}

#[test]
fn an_edit_inside_a_line_keeps_its_neighbours() {
    let written = apply_config_edits(
        "meteogate = { api_key = \"old\", extra = 7 } # keep\n",
        &[edit("meteogate.api_key", ConfigEditValue::Str("new".to_string()))],
    )
    .unwrap();
    assert_eq!(written, "meteogate = { api_key = \"new\", extra = 7 } # keep\n");
    let written = apply_config_edits(
        "a = { b = { c = 1 } }\n",
        &[edit("a.b.d.e", ConfigEditValue::Bool(true))],
    )
    .unwrap();
    let v: toml::Value = toml::from_str(&written).unwrap();
    assert_eq!(v["a"]["b"]["c"].as_integer(), Some(1));
    assert_eq!(v["a"]["b"]["d"]["e"].as_bool(), Some(true));
}

#[test]
fn a_value_on_the_way_gives_way_where_it_stands() {
    for content in ["# c\na = 1\n", "x = 1\n\na = 1\n", "a = 1 # c\nx = 1\n", "[[a]]\nx = 1\n"] {
        let written =
            apply_config_edits(content, &[edit("a.b", ConfigEditValue::Bool(true))]).unwrap();
        let v: toml::Value = toml::from_str(&written).unwrap();
        assert_eq!(v["a"]["b"].as_bool(), Some(true), "{written}");
        assert_eq!(content.contains("# c"), written.contains("# c"), "{written}");
    }
    let written = apply_config_edits(
        "[a]\nb.c = 1\n",
        &[
            edit("a.b.d", ConfigEditValue::Bool(true)),
            edit("a.b.e.f", ConfigEditValue::Bool(false)),
            edit("a.b.c", ConfigEditValue::Str("x".to_string())),
        ],
    )
    .unwrap();
    let v: toml::Value = toml::from_str(&written).unwrap();
    assert_eq!(v["a"]["b"]["c"].as_str(), Some("x"));
    assert_eq!(v["a"]["b"]["d"].as_bool(), Some(true));
    assert_eq!(v["a"]["b"]["e"]["f"].as_bool(), Some(false));
}

#[test]
fn a_comment_behind_an_edited_value_stays() {
    let written = apply_config_edits(
        "[meteogate]\napi_key = \"old\" # from the portal\nz = 1\n",
        &[edit("meteogate.api_key", ConfigEditValue::Str("new".to_string()))],
    )
    .unwrap();
    assert_eq!(written, "[meteogate]\napi_key = \"new\" # from the portal\nz = 1\n");
}

#[test]
fn odd_texts_and_keys_come_back() {
    for text in ["", "a\"b", "it's", "\"'", "a\nb\"", "\r\n\t\u{7f}", "\\", "'''\"\"\"\n"] {
        let written =
            apply_config_edits("", &[edit("a b.", ConfigEditValue::Str(text.to_string()))])
                .unwrap();
        let v: toml::Value = toml::from_str(&written).unwrap();
        assert_eq!(v["a b"][""].as_str(), Some(text), "{written}");
    }
}

#[test]
fn an_edit_that_cannot_be_read_again_is_refused() {
    let deep = vec!["a"; MOST_KEYS].join(".");
    for content in ["", "a = 1\n", "a = {}\n", "a.b = 1\n", "a.a.a.b = 1\n", "[a.a]\nx = 1\n"] {
        let written =
            apply_config_edits(content, &[edit(&deep, ConfigEditValue::Bool(true))]).unwrap();
        assert!(toml::from_str::<toml::Value>(&written).is_ok(), "{written}");
    }
    let deeper = format!("{deep}.a");
    let refused = apply_config_edits("", &[edit(&deeper, ConfigEditValue::Bool(true))]);
    assert_eq!(refused.unwrap_err(), ConfigEditError::Unwritable);
}

#[test]
fn texts_with_many_quotes_come_back() {
    for n in [255, 256, 1_000] {
        for quote in ["\"", "'", "\"'\\\n\u{7f}\u{1}"] {
            let text = format!("a{}b\u{e9}", quote.repeat(n));
            let written =
                apply_config_edits("k = 1 # c\n", &[edit("k", ConfigEditValue::Str(text.clone()))])
                    .unwrap();
            let v: toml::Value = toml::from_str(&written).unwrap();
            assert_eq!(v["k"].as_str(), Some(text.as_str()));
            assert!(written.ends_with(" # c\n"), "the comment stays");
        }
    }
}

fn keys_of(text: &str) -> Vec<String> {
    text.lines().filter_map(|l| l.split_once(" = ")).map(|(k, _)| k.to_string()).collect()
}

#[test]
fn edited_keys_keep_their_places() {
    let content = "b = 1\na = \"x\" # c\nc = true\n\n[t]\nz = 2\ny = 3\n";
    let written = apply_config_edits(
        content,
        &[
            edit("a", ConfigEditValue::Bool(true)),
            edit("b", ConfigEditValue::Str("n".to_string())),
            edit("new", ConfigEditValue::Bool(true)),
            edit("t.z", ConfigEditValue::Bool(true)),
            edit("t.x", ConfigEditValue::Bool(true)),
        ],
    )
    .unwrap();
    assert_eq!(keys_of(&written), vec!["b", "a", "c", "new", "z", "y", "x"]);
    assert!(written.contains("a = true # c\n"), "{written}");
    let written = apply_config_edits(
        "[c.x]\ni = 1\n[a.b]\nj = 1\n[[y]]\n[c]\n[[y]]\n",
        &[edit("a.k", ConfigEditValue::Bool(true)), edit("n.m", ConfigEditValue::Bool(true))],
    )
    .unwrap();
    let headings: Vec<&str> =
        written.lines().filter(|l| l.starts_with('[') && *l != "[a]" && *l != "[n]").collect();
    assert_eq!(headings, vec!["[c.x]", "[a.b]", "[[y]]", "[c]", "[[y]]"], "{written}");
    let v: toml::Value = toml::from_str(&written).unwrap();
    assert_eq!(v["a"]["k"].as_bool(), Some(true));
    assert_eq!(v["a"]["b"]["j"].as_integer(), Some(1));
}

#[test]
fn the_file_written_at_first_can_be_read() {
    let text = Config::default().default_file_text("46.05", "14.51", "4.0");
    let v: toml::Value = toml::from_str(&text).unwrap();
    assert_eq!(v["viewport"]["lat"].as_float(), Some(46.05));
    assert_eq!(v["viewport"]["zoom"].as_float(), Some(4.0));
    assert_eq!(v["eumetnet"]["api_key"].as_str(), Some(""));
    assert_eq!(v["location"]["ip_fallback"].as_bool(), Some(true));
    assert_eq!(v["location"]["ip_endpoint"].as_str(), Some("https://ipwho.is/"));
    assert_eq!(
        v["geocode"]["endpoint"].as_str(),
        Some("https://nominatim.openstreetmap.org/search")
    );
    assert_eq!(v["meteogate"]["s3_endpoint"].as_str(), Some("https://s3.waw3-1.cloudferro.com"));
}

#[test]
fn a_saved_session_comes_back() {
    let mut layers = LayerRegistry::new();
    layers.toggle(LayerId::RegionBorders);
    layers.toggle(LayerId::SurfTemp);
    let saved = save_state(&layers, d(46.05), d(14.51), d(5.0), 10, 6);
    assert_eq!(saved.history_hours, Some(6));
    let mut fresh = LayerRegistry::new();
    load_state(&mut fresh, &saved);
    for id in [LayerId::RegionBorders, LayerId::SurfTemp, LayerId::Radar, LayerId::MapBorders] {
        assert_eq!(fresh.enabled(id), layers.enabled(id));
    }
    assert_eq!(restored_trail(None, 30), 30);
    assert_eq!(restored_history(Some(7), 3), 3);
    assert_eq!(restored_history(Some(12), 3), 12);
}

#[test]
fn only_one_observation_is_drawn() {
    let mut layers = LayerRegistry::new();
    assert!(layers.enabled(LayerId::SurfTemp));
    layers.set_selected(LayerId::SurfWind);
    assert_eq!(layers.handle_space(), Some(LayerId::SurfWind));
    assert!(layers.enabled(LayerId::SurfWind));
    assert!(!layers.enabled(LayerId::SurfTemp));
    assert!(any_obs_enabled(&layers));
    layers.handle_space();
    assert!(!any_obs_enabled(&layers));
}

#[test]
fn the_cursor_steps_through_the_panel_and_back() {
    let mut layers = LayerRegistry::new();
    let start = layers.selected_layer();
    layers.select_next();
    assert_ne!(layers.selected_layer(), start);
    layers.select_previous();
    assert_eq!(layers.selected_layer(), start);
    layers.set_selected(LayerId::MeteoAlarm);
    assert_eq!(layers.selected_layer(), LayerId::MeteoAlarm);
}

#[test]
fn a_layer_takes_a_way_of_drawing_from_another() {
    let mut layers = LayerRegistry::new();
    let modes = layers.mode_state_mut();
    modes.assign(RenderMode::Color, LayerId::Radar);
    assert_eq!(modes.assign(RenderMode::Color, LayerId::MeteoAlarm), Some(LayerId::Radar));
    assert!(modes.has(RenderMode::Color, LayerId::MeteoAlarm));
}

fn obs_point(id: &str) -> ObservationPoint {
    ObservationPoint {
        point: GeoPoint { lon: d(0.0), lat: d(0.0) },
        world: WorldPoint { x: d(0.0), y: d(0.0) },
        station_id: id.into(),
        wigos_id: id.into(),
        temperature: None,
        wind_speed: None,
        wind_direction: None,
        humidity: None,
        pressure: None,
    }
}

#[test]
fn readings_stream_in_and_are_shown() {
    let mut layers = LayerRegistry::new();
    let mut obs = Observations::new();
    layers.mode_state_mut().remove_all(LayerId::SurfTemp);
    assert!(obs.request_obs_refresh(&mut layers, SECOND, 1).is_none());
    layers.mode_state_mut().assign(RenderMode::Text, LayerId::SurfTemp);
    let plan = obs.request_obs_refresh(&mut layers, SECOND, 1).unwrap();
    assert!(obs.has_obs_task());
    let result = |result| ObsRefreshResult { id: plan.id, result };
    obs.drain_obs_result(&mut layers, result(ObsRefreshPayload::Point(obs_point("a"))), 5, 2);
    assert!(obs.drain_obs_result(&mut layers, result(ObsRefreshPayload::PartialCommit), 5, 2));
    assert!(obs.drain_obs_result(&mut layers, result(ObsRefreshPayload::Ready), 5, 2));
    assert_eq!(obs.cache.as_ref().unwrap().points.len(), 1);
    let stale = ObsRefreshResult { id: plan.id + 1, result: ObsRefreshPayload::Done };
    assert!(!obs.drain_obs_result(&mut layers, stale, 5, 2));
}

#[test]
fn long_fetches_tell_how_far_they_are() {
    assert!(station_progress(9, 7).is_none());
    match station_progress(10, 7) {
        Some(TaskMsg::Progress { id: 7, action, fraction }) => {
            assert_eq!(action, "10 stations");
            assert_eq!(fraction, Some(d(0.5)));
        }
        other => panic!("expected progress, got {other:?}"),
    }
    let fraction = |m: TaskMsg| match m {
        TaskMsg::Progress { fraction, .. } => fraction,
        _ => None,
    };
    let stations = |n: u32| station_progress(n, 1).and_then(fraction);
    assert_eq!(stations(35), Some(d(0.875)));
    assert_eq!(stations(500), Some(d(0.90)));
    let tiles = |n: u32| fraction(tile_progress(n, 1));
    assert_eq!(tiles(2), Some(d(0.0)));
    assert_eq!(tiles(3), Some(d(0.5)));
    assert_eq!(tiles(14), Some(d(0.9375)));
    assert_eq!(tiles(30), Some(d(0.95)));
    assert!(matches!(
        tile_progress(12, 4),
        TaskMsg::Progress { id: 4, action, .. } if action == "12 tiles"
    ));
}

#[test]
fn warnings_are_read_and_shown() {
    let body = br#"{"features":[
        {"geometry":{"type":"Polygon","coordinates":[[[14.0,46.0],[15.0,46.0],[15.0,47.0]]]},
         "properties":{"countryCode":"SI","awareness_level":"2; yellow; Moderate",
          "awareness_type":"1; Wind","onset":"2024-01-01T00:00:00+01:00"}},
        {"geometry":{"type":"Point","coordinates":[14.0,46.0]},"properties":{}}]}"#;
    let w = parse_warnings(body).unwrap();
    assert_eq!(w.len(), 1);
    assert_eq!(w[0].ring.len(), 3);
    assert_eq!(w[0].country_code, "SI");
    assert_eq!(w[0].onset, Some(1_704_063_600));
    assert_eq!(w[0].expires, None);
    assert!(parse_warnings(b"no json").is_err());
    let mut config = Config::default().meteoalarm;
    config.api_endpoint = "https://x".to_string();
    config.token = "t".to_string();
    assert_eq!(warnings_url(&config), "https://x/collections/warnings/locations/ALL?token=t");
    assert!(cache_is_fresh(Some(299)));
    assert!(!cache_is_fresh(Some(300)));
    assert!(!cache_is_fresh(None));
    let mut layers = LayerRegistry::new();
    let mut state = Warnings::new();
    assert!(state.request_warning_refresh(&mut layers, SECOND, 1).is_none());
    layers.mode_state_mut().assign(RenderMode::Color, LayerId::MeteoAlarm);
    let plan = state.request_warning_refresh(&mut layers, SECOND, 1);
    if let Some(plan) = plan {
        let layer = WarningLayer {
            features: vec![WarningFeature {
                polygon: vec![],
                awareness_level: "2; yellow; Moderate".to_string(),
                event: String::new(),
                country_code: String::new(),
                onset: None,
                expires: None,
            }],
            updated_at: Some(5),
        };
        let result = WarnRefreshResult { id: plan.id, result: WarnRefreshPayload::Ready(layer) };
        assert!(state.drain_warning_result(&mut layers, result, 2 * SECOND));
        assert_eq!(state.layer.as_ref().unwrap().features.len(), 1);
    } else {
        panic!("warnings that are shown are asked for");
    }
}

#[test]
fn a_key_is_staged_saved_and_checked() {
    let mut modal = SettingsModal::new();
    let mut verify = Verify::new();
    let mut config = Config::default();
    modal.open_settings(&mut verify, &config, false, false);
    assert!(modal.settings_is_open());
    modal.settings_confirm();
    modal.settings_push_char(&mut verify, 'k');
    let edit = match modal.settings_confirm() {
        ConfirmStep::Save(edit) => edit,
        ConfirmStep::Nothing => panic!("a changed field has to be saved"),
    };
    assert_eq!(edit.key, "eumetnet.api_key");
    let next = modal.settings_saved(&mut config, &edit, true);
    assert_eq!(config.eumetnet.api_key, "k");
    assert!(next.rebuild_eumetnet);
    assert_eq!(next.verify.as_deref(), Some("k"));
    let plan = verify.request_verify(VerifyTarget::Eumetnet, "k".to_string(), 1);
    let result = VerifyResult {
        id: plan.id,
        target: VerifyTarget::Eumetnet,
        outcome: VerifyOutcome::Valid,
    };
    assert!(verify.drain_verify_result(result));
    assert!(matches!(
        verify_task_message(VerifyOutcome::Valid, 1),
        TaskMsg::Complete { id: 1 }
    ));
}

fn world() -> Bounds {
    Bounds { min_x: d(0.0), max_x: d(1.0), min_y: d(0.0), max_y: d(1.0) }
}

fn frame(time: i64) -> RadarFrame {
    RadarFrame { time, path: String::new(), tiles: vec![], missing_tiles: 0, target_zoom: 4 }
}

#[test]
fn a_frame_is_fetched_shown_and_kept() {
    let mut timeline = Timeline::new();
    timeline.adopt(vec![900, 600, 300], 0);
    let mut layers = LayerRegistry::new();
    layers.mode_state_mut().assign(RenderMode::Braille, LayerId::Radar);
    let mut radar = Radar::new();
    assert_eq!(radar.frame_label(), "no frame");
    let plan = radar.request_meteogate_refresh(&timeline, &mut layers, world(), 4, SECOND);
    let (id, ts) = plan.fetch.expect("the frame on screen is fetched");
    assert_eq!(ts, 900);
    let (changed, _) = radar.drain_refresh_result(
        &mut timeline,
        &mut layers,
        RadarRefreshResult { id, result: RadarRefreshPayload::Ready(frame(900)) },
        world(),
        4,
        2 * SECOND,
    );
    assert!(changed);
    assert_eq!(radar.frame_label().len(), 5);
    assert_eq!(radar.slot_state(900), SlotState::InRam);
    assert_eq!(radar.slot_state(300), SlotState::Missing);
    radar.drain_preload_result(
        &mut timeline,
        RadarPreloadResult { timestamp: 600, tile_zoom: 4, frame: None },
        4,
        2 * SECOND,
    );
    radar.note_frame_failure(600, 2 * SECOND);
    radar.merge_radar_frame(frame(1_200));
    assert_eq!(radar.frame.as_ref().unwrap().time, 1_200);
    radar.cycle_history_to(&mut timeline, vec![1_200, 900], vec![900]);
    assert_eq!(timeline.history_hours, 6);
    assert_eq!(timeline.timestamps, vec![1_200, 900]);
}

#[test]
fn times_beyond_the_calendar_are_numbers() {
    assert_eq!(time_label(None, None), "no frame");
    assert_eq!(time_label(Some(5), Some("12:00".to_string())), "12:00");
    assert_eq!(time_label(Some(-5), None), "-5");
    let mut radar = Radar::new();
    radar.merge_radar_frame(frame(i64::MAX));
    assert_eq!(radar.frame_label(), i64::MAX.to_string());
    radar.merge_radar_frame(frame(8_210_266_876_799));
    assert_eq!(radar.frame_label().len(), 5);
    radar.merge_radar_frame(frame(8_210_266_876_800));
    assert_eq!(radar.frame_label(), "8210266876800");
    radar.merge_radar_frame(frame(-8_334_601_228_801));
    assert_eq!(radar.frame_label(), "-8334601228801");
}

#[test]
fn tiles_follow_the_zoom() {
    assert_eq!(tile_zoom(d(0.2)), 1);
    assert_eq!(tile_zoom(d(4.49)), 4);
    assert_eq!(tile_zoom(d(4.5)), 5);
    assert_eq!(tile_zoom(d(11.0)), 7);
}

#[test]
fn rows_come_and_go() {
    let mut ids = TaskIds::new();
    let id = next_task_id(&mut ids);
    let mut rows = TaskRows::new();
    rows.drain_task_message(
        TaskMsg::Start { id, label: "x".to_string(), kind: TaskKind::FrameList },
        false,
        0,
    );
    rows.drain_task_message(
        TaskMsg::Progress { id, action: "a".to_string(), fraction: Some(d(0.5)) },
        false,
        1,
    );
    assert_eq!(rows.fraction_of(id), Some(d(0.5)));
    rows.drain_task_message(TaskMsg::Error { id, error: "e".to_string() }, false, 2);
    assert!(!rows.prune(2 + 2 * SECOND));
    assert!(rows.prune(2 + 3 * SECOND));
    assert_eq!(rows.fraction_of(id), None);
    assert_ne!(next_task_id(&mut ids), id);
}

#[test]
fn ranks_order_stably() {
    assert_eq!(sorted_indices(&[3, 1, 2, 1]), vec![1, 3, 2, 0]);
}

#[test]
fn pyramids_halve_down_to_eight_cells() {
    assert_eq!(pyramid_sizes(64, 40), vec![(64, 40), (32, 20), (16, 10)]);
    assert_eq!(pyramid_sizes(1000, 1000).len(), 4);
    assert_eq!(pyramid_sizes(3, 3), vec![(3, 3)]);
    let b = block_cells(1, 0, 3, 2);
    assert_eq!((b.a, b.b, b.c, b.d), (2, 2, 5, 5));
    let n = neighbor_cells(0, 1, 3, 2);
    assert_eq!((n.a, n.b, n.c, n.d), (3, 4, 0, 3));
}

#[test]
fn texts_are_read_as_numbers() {
    assert_eq!(parse_unsigned("+7"), Some(7));
    assert_eq!(parse_unsigned("18446744073709551615"), Some(u64::MAX));
    assert_eq!(parse_unsigned("18446744073709551616"), None);
    assert_eq!(parse_unsigned(""), None);
    assert_eq!(parse_unsigned("+"), None);
    assert_eq!(parse_signed("-9223372036854775808"), Some(i64::MIN));
    assert_eq!(parse_signed("9223372036854775808"), None);
    assert_eq!(signed_text(i64::MIN), "-9223372036854775808");
    assert_eq!(trim(" \u{a0}x\n"), "x");
    assert_eq!(without_end("a.frd", ".frd").as_deref(), Some("a"));
}

#[test]
fn the_program_starts_where_it_was_left() {
    let start = StartView { lat: d(46.0), lon: d(14.0), zoom: d(20.0) };
    let files = vec!["900.frd".to_string(), "x.frd".to_string()];
    let (app, plan) = App::boot(Config::default(), None, start, None, &files, 10, 1);
    assert_eq!(plan.view.zoom, d(12.0), "the zoom is bounded");
    assert_eq!(plan.borders.fetch.unwrap().1, BorderResolution::Regional10m);
    assert_eq!(app.radar.slot_state(900), SlotState::OnDisk);
    assert!(matches!(plan.frame_list, TaskMsg::Start { id: 1, .. }));
    assert_eq!(plan.preload, vec![BorderResolution::High10m]);
    let mut left = app.save_state(StartView { lat: d(50.0), lon: d(10.0), zoom: d(4.0) });
    left.history_hours = Some(12);
    let (app, plan) = App::boot(Config::default(), None, start, Some(left), &vec![], 10, 1);
    assert_eq!((plan.view.lat, plan.view.lon, plan.view.zoom), (d(50.0), d(10.0), d(4.0)));
    assert_eq!(app.timeline.history_hours, 12);
    let mut left = app.save_state(StartView { lat: d(50.0), lon: d(10.0), zoom: d(4.0) });
    left.history_hours = Some(12);
    let asked = initial_viewport(Some(d(46.0)), Some(d(14.5)), Some(d(6.0)), false, 1);
    let (app, plan) =
        App::boot(Config::default(), asked.manual, asked.view, Some(left), &vec![], 10, 1);
    assert_eq!(
        (plan.view.lat, plan.view.lon, plan.view.zoom),
        (d(46.0), d(14.5), d(6.0)),
        "a place on the command line wins over the session"
    );
    assert_eq!(app.timeline.history_hours, 12, "the rest of the session stays");
    let mut left = app.save_state(StartView { lat: d(50.0), lon: d(10.0), zoom: d(4.0) });
    left.history_hours = None;
    let found = LocationFix::new(GeoPoint::new(d(14.5), d(46.0)), None, LocationSource::Ip, 1);
    let (_, plan) =
        App::boot(Config::default(), Some(found), start, Some(left), &vec![], 10, 1);
    assert_eq!(plan.view.lat, d(50.0), "a position that was found does not");
}

#[test]
fn a_moved_view_asks_for_what_it_shows() {
    let start = StartView { lat: d(46.0), lon: d(14.0), zoom: d(4.0) };
    let (mut app, _) = App::boot(Config::default(), None, start, None, &vec![], 10, 1);
    let (changed, none) = app.drain_frame_list(vec![900, 600], world(), 4, 2);
    assert!(changed && none.is_none(), "the radar is not drawn yet");
    app.layers.mode_state_mut().assign(RenderMode::Braille, LayerId::Radar);
    let plan = app.request_viewport_refresh(world(), 4, BorderResolution::Low110m, 3);
    assert_eq!(plan.radar.fetch.unwrap().1, 900);
    assert!(plan.borders.fetch.is_some(), "the view wants another resolution now");
    assert!(plan.obs.is_some());
    let again = app.request_viewport_refresh(world(), 4, BorderResolution::Low110m, 4);
    assert!(again.obs.is_none(), "readings are on their way");
    let (changed, plan) = app.drain_frame_list(vec![1_200, 900], world(), 4, 5);
    assert!(changed);
    assert_eq!(plan.unwrap().fetch.unwrap().1, 1_200);
    let stop = app.shutdown();
    assert!(stop.radar_refresh && stop.borders && stop.obs && !stop.lightning);
    let idle = app.shutdown();
    assert!(!idle.radar_refresh && !idle.obs);
}

#[test]
fn a_new_key_is_put_to_use() {
    let start = StartView { lat: d(46.0), lon: d(14.0), zoom: d(4.0) };
    let (mut app, _) = App::boot(Config::default(), None, start, None, &vec![], 10, 1);
    app.settings.open_settings(&mut app.verify, &app.config, false, false);
    app.settings.settings_confirm();
    app.settings.settings_push_char(&mut app.verify, 'k');
    let edit = match app.settings.settings_confirm() {
        ConfirmStep::Save(edit) => edit,
        ConfirmStep::Nothing => panic!("a changed field has to be saved"),
    };
    let failed = app.settings_saved(&edit, false, 2);
    assert!(!failed.rebuild && failed.verify.is_none());
    let plan = app.settings_saved(&edit, true, 3);
    assert!(plan.rebuild && plan.obs.is_some());
    assert_eq!(plan.verify.unwrap().candidate_key, "k");
    assert_eq!(app.config.eumetnet.api_key, "k");
    assert!(app.search_pin().is_none());
    assert!(app.location_label().is_none() && app.search_label().is_none());
}
