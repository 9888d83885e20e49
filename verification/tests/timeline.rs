use std::time::Duration;

use front::config::{eumetnet_rebuild_needed, EumetnetConfig};
use front::double::Double;
use front::features::ObservationPoint;
use front::geo::{GeoPoint, WorldPoint};
use front::location::{viewport_for_fix, LocationFix, LocationSource};
use front::observations::reset_obs_accumulator;
use front::radar::{frame_retry_policy, frame_retry_delay};
use front::tasks::{ActiveTask, TaskKind, TaskState};
use front::timeline::{
    compute_frame_list, frame_list_at, frames_for_hours, frames_to_evict, next_history_hours,
    ring_distance, stepped_index, timeline_without_phantom, PlaybackMode, PlaybackSpeed, Step,
    Timeline, DEFAULT_HISTORY_HOURS,
};

fn d(x: f64) -> Double {
    Double::from_bits(x.to_bits())
}

const MS: u64 = 1_000_000;

fn moved(from: Option<f64>, to: Option<f64>) -> bool {
    match (from, to) {
        (Some(a), Some(b)) => (a - b).abs() > 0.001,
        _ => false,
    }
}

fn test_task(fraction: Option<f64>) -> ActiveTask {
    ActiveTask {
        id: 1,
        label: "test".into(),
        action: String::new(),
        fraction: fraction.map(d),
        display_fraction: d(0.4),
        anim_from: d(0.4),
        anim_t: d(1.0),
        kind: TaskKind::RadarFrame,
        state: TaskState::Running,
        started_at: 0,
        completed_at: None,
        last_anim: 0,
    }
}

#[test]
fn progress_some_to_some_below_threshold_leaves_animation_untouched() {
    let mut task = test_task(Some(0.5));
    task.apply_progress("still going".into(), Some(d(0.5005)), moved(Some(0.5), Some(0.5005)));
    assert_eq!(task.fraction, Some(d(0.5005)));
    assert_eq!(task.anim_t, d(1.0), "sub-threshold change must not reset anim");
    assert_eq!(task.anim_from, d(0.4));
}

#[test]
fn progress_some_to_some_above_threshold_resets_animation() {
    let mut task = test_task(Some(0.5));
    task.apply_progress("jumped".into(), Some(d(0.7)), moved(Some(0.5), Some(0.7)));
    assert_eq!(task.fraction, Some(d(0.7)));
    assert_eq!(task.anim_t, d(0.0), "real change must reset anim_t");
    assert_eq!(task.anim_from, d(0.4), "anim_from must snapshot display_fraction");
}

#[test]
fn progress_none_to_some_resets_animation() {
    let mut task = test_task(None);
    task.apply_progress("found a fraction".into(), Some(d(0.2)), moved(None, Some(0.2)));
    assert_eq!(task.fraction, Some(d(0.2)));
    assert_eq!(task.anim_t, d(0.0), "None to Some must reset anim_t");
    assert_eq!(task.anim_from, d(0.4));
}

#[test]
fn progress_to_none_sets_indeterminate_without_animation_reset() {
    let mut task = test_task(Some(0.5));
    task.apply_progress("no measurable progress".into(), None, moved(Some(0.5), None));
    assert_eq!(task.fraction, None);
    assert_eq!(task.anim_t, d(1.0), "Some to None must not touch the smoothstep state");
}

#[test]
fn complete_always_sets_full_determinate_bar() {
    let mut task = test_task(None);
    let now = 7;
    task.apply_complete(now);
    assert_eq!(task.fraction, Some(d(1.0)));
    assert_eq!(task.state, TaskState::Completed);
    assert_eq!(task.completed_at, Some(now));
    assert_eq!(task.anim_t, d(0.0), "completion must restart the fill animation");
    assert_eq!(task.anim_from, d(0.4));
}

#[test]
fn fast_completed_task_never_becomes_visible() {
    let start = 1_000 * MS;
    let mut task = test_task(Some(1.0));
    task.state = TaskState::Completed;
    task.started_at = start;
    task.completed_at = Some(start + 50 * MS);
    assert!(!task.is_visible(start + 200 * MS));
}

#[test]
fn slow_completed_task_becomes_visible() {
    let start = 1_000 * MS;
    let mut task = test_task(Some(1.0));
    task.state = TaskState::Completed;
    task.started_at = start;
    task.completed_at = Some(start + 200 * MS);
    assert!(task.is_visible(start + 200 * MS));
}

#[test]
fn fast_error_task_is_always_visible() {
    let start = 1_000 * MS;
    let mut task = test_task(Some(1.0));
    task.state = TaskState::Error;
    task.started_at = start;
    task.completed_at = Some(start + 50 * MS);
    assert!(task.is_visible(start + 50 * MS));
}

#[test]
fn running_task_crosses_the_threshold_at_150ms() {
    let start = 1_000 * MS;
    let mut task = test_task(Some(0.5));
    task.state = TaskState::Running;
    task.started_at = start;
    assert!(!task.is_visible(start + 50 * MS));
    assert!(task.is_visible(start + 200 * MS));
}

#[test]
fn frame_cache_eviction_keeps_the_window_around_the_playhead() {
    let timestamps: Vec<i64> = (0..288).map(|i| 1_000_000 - i * 300).collect();
    let cached = timestamps.clone();
    let playhead = 100;
    let evicted = frames_to_evict(&cached, &timestamps, playhead, 48);

    assert_eq!(evicted.len(), 288 - 48, "cache must be brought down to cap");
    let kept: Vec<i64> = cached.iter().copied().filter(|ts| !evicted.contains(ts)).collect();
    assert_eq!(kept.len(), 48);
    assert!(kept.contains(&timestamps[playhead]));
    let kept_idx: Vec<usize> = kept
        .iter()
        .map(|ts| timestamps.iter().position(|t| t == ts).unwrap())
        .collect();
    let far = kept_idx.iter().map(|i| i.abs_diff(playhead)).max().unwrap();
    assert!(far <= 24, "kept frames should hug the playhead, furthest={far}");
}

#[test]
fn frame_cache_eviction_drops_frames_no_longer_on_the_timeline_first() {
    let timestamps: Vec<i64> = (0..4).map(|i| 1_000_000 - i * 300).collect();
    let mut cached = vec![55_555, 66_666];
    cached.extend(timestamps.iter().copied());
    let evicted = frames_to_evict(&cached, &timestamps, 0, 4);
    assert_eq!(evicted.len(), 2, "only the excess is dropped, not the whole tail");
    assert!(evicted.contains(&55_555) && evicted.contains(&66_666));
    for ts in &timestamps {
        assert!(!evicted.contains(ts), "live timeline frames must be kept");
    }
}

#[test]
fn frame_retry_sequence_matches_today() {
    let expected = [4u64, 8, 16, 32, 64, 90, 90];
    for (i, secs) in expected.into_iter().enumerate() {
        let attempts = i as u32 + 1;
        assert_eq!(
            frame_retry_policy().delay_for(attempts),
            Duration::from_secs(secs),
            "attempts {attempts}"
        );
        assert_eq!(frame_retry_delay(attempts), Duration::from_secs(secs));
    }
    assert!(!frame_retry_policy().exhausted(7));
    assert!(frame_retry_policy().exhausted(8));
}

#[test]
fn ring_distance_measures_across_the_wrap() {
    assert_eq!(ring_distance(0, 0, 10), 0);
    assert_eq!(ring_distance(9, 0, 10), 1, "oldest is one step from newest");
    assert_eq!(ring_distance(0, 9, 10), 1, "and symmetrically back");
    assert_eq!(ring_distance(5, 0, 10), 5, "the far side stays far");
    assert_eq!(ring_distance(8, 1, 10), 3);
    assert_eq!(ring_distance(0, 0, 0), 0, "an empty timeline has no distance");
}

#[test]
fn eviction_keeps_the_frames_just_past_the_wrap() {
    let timestamps: Vec<i64> = (0..288).map(|i| 1_000_000 - i * 300).collect();
    let evicted = frames_to_evict(&timestamps, &timestamps, 0, 48);
    let kept: Vec<i64> = timestamps.iter().copied().filter(|ts| !evicted.contains(ts)).collect();
    assert_eq!(kept.len(), 48);
    assert!(kept.contains(&timestamps[0]), "displayed frame survives");
    assert!(kept.contains(&timestamps[287]), "the frame playback wraps onto was evicted");
    assert!(kept.contains(&timestamps[286]));
    assert!(!kept.contains(&timestamps[144]));
}

fn dummy_obs_point() -> ObservationPoint {
    ObservationPoint {
        point: GeoPoint { lon: d(0.0), lat: d(0.0) },
        world: WorldPoint { x: d(0.0), y: d(0.0) },
        station_id: "test".into(),
        wigos_id: "0-0-0-test".into(),
        temperature: None,
        wind_speed: None,
        wind_direction: None,
        humidity: None,
        pressure: None,
    }
}

#[test]
fn reset_obs_accumulator_clears_stale_partial_from_a_prior_refresh() {
    let mut obs_incoming = vec![dummy_obs_point()];
    let mut obs_incoming_id = 1u64;
    let mut obs_partial = vec![dummy_obs_point(), dummy_obs_point()];
    reset_obs_accumulator(&mut obs_incoming, &mut obs_incoming_id, &mut obs_partial, 2);
    assert!(obs_partial.is_empty(), "stale partial state must not survive the next kickoff");
    assert!(obs_incoming.is_empty());
    assert_eq!(obs_incoming_id, 2);
}

#[test]
fn stepping_older_wraps_past_the_oldest_onto_the_newest() {
    assert_eq!(stepped_index(0, 10, Step::Older), Some(1));
    assert_eq!(stepped_index(8, 10, Step::Older), Some(9));
    assert_eq!(
        stepped_index(9, 10, Step::Older),
        Some(0),
        "past the oldest comes the newest, not a dead end"
    );
}

#[test]
fn stepping_newer_wraps_past_the_newest_onto_the_oldest() {
    assert_eq!(stepped_index(9, 10, Step::Newer), Some(8));
    assert_eq!(stepped_index(1, 10, Step::Newer), Some(0));
    assert_eq!(stepped_index(0, 10, Step::Newer), Some(9), "past the newest comes the oldest");
}

#[test]
fn stepping_an_empty_timeline_does_nothing() {
    assert_eq!(stepped_index(0, 0, Step::Older), None);
    assert_eq!(stepped_index(0, 0, Step::Newer), None);
}

#[test]
fn stepping_a_single_frame_timeline_stays_put() {
    assert_eq!(stepped_index(0, 1, Step::Older), Some(0));
    assert_eq!(stepped_index(0, 1, Step::Newer), Some(0));
}

#[test]
fn stepping_from_a_stale_index_lands_back_in_range() {
    assert_eq!(stepped_index(50, 10, Step::Older), Some(0));
    assert_eq!(stepped_index(50, 10, Step::Newer), Some(9));
}

#[test]
fn a_full_lap_of_steps_returns_to_where_it_started() {
    let len = 7;
    let mut i = 0;
    for _ in 0..len {
        i = stepped_index(i, len, Step::Older).unwrap();
    }
    assert_eq!(i, 0, "stepping older through every slot closes the loop");
    for _ in 0..len {
        i = stepped_index(i, len, Step::Newer).unwrap();
    }
    assert_eq!(i, 0, "and so does stepping back the other way");
}

#[test]
fn frame_cache_under_cap_is_left_alone() {
    let timestamps: Vec<i64> = (0..10).map(|i| 1_000_000 - i * 300).collect();
    assert!(frames_to_evict(&timestamps, &timestamps, 0, 48).is_empty());
    assert!(frames_to_evict(&timestamps, &timestamps, 99, 48).is_empty());
    assert_eq!(frames_to_evict(&[1, 2, 3], &timestamps, 99, 2), vec![3], "none is on the timeline");
}

#[test]
fn phantom_slot_is_removed_from_the_timeline() {
    let ts = [500i64, 400, 300];
    let (remaining, _) = timeline_without_phantom(&ts, 0, 400, 300, false).unwrap();
    assert_eq!(remaining, vec![500, 300], "phantom slot must not remain");
}

#[test]
fn viewer_keeps_watching_the_same_time_across_a_removal() {
    let ts = [500i64, 400, 300];
    let (remaining, index) = timeline_without_phantom(&ts, 2, 400, 300, false).unwrap();
    assert_eq!(remaining[index], 300, "must still display the same time");
    assert_eq!(index, 1);
}

#[test]
fn viewing_the_phantom_itself_falls_back_to_the_resolved_time() {
    let ts = [500i64, 400, 300];
    let (remaining, index) = timeline_without_phantom(&ts, 1, 400, 300, false).unwrap();
    assert_eq!(remaining[index], 300, "falls back to what was resolved");
}

#[test]
fn live_mode_snaps_back_to_the_newest_frame() {
    let ts = [500i64, 400, 300];
    let (_, index) = timeline_without_phantom(&ts, 2, 400, 300, true).unwrap();
    assert_eq!(index, 0, "live always shows newest");
}

#[test]
fn unknown_slot_is_not_a_removal() {
    let ts = [500i64, 400, 300];
    assert!(timeline_without_phantom(&ts, 0, 999, 300, false).is_none());
}

#[test]
fn a_coarse_first_fix_still_moves_the_viewport_though_it_would_not_draw_a_marker() {
    let fix = LocationFix::new(
        GeoPoint::new(d(14.5), d(46.0)),
        Some(d(10_000.0)),
        LocationSource::Ip,
        0,
    );
    let view = viewport_for_fix(&fix, None);
    assert_eq!(
        (view.lat, view.lon, view.zoom),
        (d(46.0), d(14.5), d(5.0)),
        "viewport must centre on the fix's point regardless of accuracy"
    );
}

fn eumetnet_config(api_key: &str) -> EumetnetConfig {
    EumetnetConfig { surface_endpoint: "https://example.test".into(), api_key: api_key.into() }
}

#[test]
fn eumetnet_rebuild_not_needed_when_key_unchanged() {
    let old = eumetnet_config("abc123");
    let new = eumetnet_config("abc123");
    assert!(!eumetnet_rebuild_needed(&old, &new));
}

#[test]
fn eumetnet_rebuild_needed_when_key_changed() {
    let old = eumetnet_config("abc123");
    let new = eumetnet_config("xyz789");
    assert!(eumetnet_rebuild_needed(&old, &new));
}

#[test]
fn eumetnet_rebuild_not_needed_for_whitespace_only_difference() {
    let old = eumetnet_config("abc123");
    let new = eumetnet_config("  abc123  ");
    assert!(!eumetnet_rebuild_needed(&old, &new));
}

#[test]
fn compute_frame_list_returns_descending_5min_steps() {
    let frames = compute_frame_list(DEFAULT_HISTORY_HOURS);
    assert_eq!(frames.len(), 36, "3 h at 5-min cadence");
    for w in frames.windows(2) {
        assert_eq!(w[0] - w[1], 300, "frames must be 5 min apart");
    }
    assert_eq!(frames[0] % 300, 0, "latest frame aligned to 5 min boundary");
}

#[test]
fn frame_list_length_tracks_history_depth() {
    for hours in [3u8, 6, 12, 24] {
        assert_eq!(
            compute_frame_list(hours).len(),
            frames_for_hours(hours),
            "{hours} h list must span the requested depth"
        );
    }
    assert_eq!(frames_for_hours(24), 288, "24 h is the bucket's retention");
}

#[test]
fn history_cycle_wraps_and_recovers_from_bogus_values() {
    assert_eq!(next_history_hours(3), 6);
    assert_eq!(next_history_hours(6), 12);
    assert_eq!(next_history_hours(12), 24);
    assert_eq!(next_history_hours(24), 3, "wraps back to the shortest");
    assert_eq!(next_history_hours(7), DEFAULT_HISTORY_HOURS);
}

#[test]
fn slots_start_one_before_the_one_under_way() {
    assert_eq!(frame_list_at(600, 1)[0], 300);
    assert_eq!(frame_list_at(600, 1).len(), 12);
    assert_eq!(frame_list_at(899, 1)[0], 300);
    assert_eq!(frame_list_at(899, 1)[11], 300 - 11 * 300);
    assert_eq!(frame_list_at(900, 1)[0], 600);
}

#[test]
fn a_timeline_steps_and_returns_to_live() {
    let mut t = Timeline::new();
    t.adopt(vec![900, 600, 300], 0);
    assert_eq!(t.current(), Some(900));
    t.next_frame();
    assert_eq!(t.current(), Some(600));
    t.previous_frame();
    t.previous_frame();
    assert_eq!(t.current(), Some(300));
    t.jump_to_live();
    assert_eq!(t.current(), Some(900));
    assert_eq!(t.playback_mode, PlaybackMode::Live);
}

#[test]
fn an_answered_list_keeps_the_slot_on_screen() {
    let mut t = Timeline::new();
    t.adopt(vec![900, 600, 300], 0);
    t.next_frame();
    assert!(!t.drain_frame_list(vec![]));
    assert!(!t.drain_frame_list(vec![900, 600, 300]));
    assert!(t.drain_frame_list(vec![1200, 900, 600]));
    assert_eq!(t.current(), Some(600));
}

#[test]
fn speeds_go_up_and_down() {
    assert_eq!(PlaybackSpeed::Normal.faster().slower(), PlaybackSpeed::Normal);
    assert!(PlaybackSpeed::Normal.faster().interval_ms() < PlaybackSpeed::Normal.interval_ms());
}
