//! The radar layer: the frame on screen, the frames kept in memory, and the
//! slots that failed to load.

use std::time::Duration;

use vstd::arithmetic::power2::*;
use vstd::prelude::*;
use vstd::string::*;

use crate::app::announces;
use crate::calendar::{format_local, is_clock_text, on_calendar, CLOCK};
use crate::double::Double;
use crate::frames::{
    distinct_coords, has_tile, with_tile, FrameModel, RadarFrame, RadarTile, TileModel,
};
use crate::geo::{Bounds, TileCoord};
use crate::layers::{LayerId, LayerRegistry, LayerStatus};
use crate::observations::{HALF_BITS, SEVEN_EIGHTHS_BITS, THREE_QUARTERS_BITS};
use crate::order::{
    by_rank, precedes, rank_order, rank_order_is_stable_and_complete, sorted_indices,
};
use crate::retry::{at_most, duration_nanos, RetryPolicy};
use crate::slots::{contains_slot, SlotMap};
use crate::tasks::{TaskKind, TaskMsg};
use crate::text::{digits, number_text, signed, signed_text};
use crate::timeline::{
    adopting_keeps_the_slot_on_screen, around, compute_frame_list, evicted, first_place,
    frames_to_evict, hours_after, keep_ranks, next_history_hours, phantoms_leave_alone,
    ring_distance, slots_at, the_timeline_is_one_lap, timeline_without_phantom,
    viewer_keeps_the_time_on_screen, without_phantom, PlaybackMode, Timeline, TimelineModel,
};

verus! {

/// How many frames one preload pass pulls in.
pub const PRELOAD_WINDOW: usize = 36;

/// How many decoded frames are held in memory.
pub const FRAME_CACHE_MAX: usize = 48;

/// How many decoded frames a finished refresh leaves in memory.
pub const REFRESH_CACHE_MAX: usize = 6;

/// Attempts after which a slot is given up.
pub const FRAME_RETRY_GIVE_UP: u32 = 8;

/// The latest reading of the program's clock, in nanoseconds.
pub const CLOCK_LIMIT: u64 = 0x7fff_ffff_ffff_ffff;

/// Retry bookkeeping for a slot whose fetch failed.
#[derive(Debug, Clone, Copy, PartialEq, Eq, Structural)]
pub struct FrameRetry {
    pub attempts: u32,
    /// Earliest time, in nanoseconds, at which the slot may be asked for again.
    pub next_at: u64,
}

/// The wait in nanoseconds after so many failures: four seconds after the
/// first, doubling, at most ninety.
pub open spec fn retry_wait(attempts: u32) -> nat {
    at_most(2_000_000_000 * pow2(attempts as nat), 90_000_000_000)
}

/// How failed slots space their retries.
pub fn frame_retry_policy() -> (p: RetryPolicy)
    ensures
        p.base_nanos() == 2_000_000_000,
        p.ceiling_nanos() == 90_000_000_000,
        p.limit() == Some(FRAME_RETRY_GIVE_UP),
{
    RetryPolicy::new(Duration::new(2, 0), Duration::new(90, 0), Some(FRAME_RETRY_GIVE_UP))
}

/// The delay before a failed slot is asked for again.
pub fn frame_retry_delay(attempts: u32) -> (d: Duration)
    ensures
        duration_nanos(d) == retry_wait(attempts),
{
    frame_retry_policy().delay_for(attempts)
}

impl FrameRetry {
    /// Whether the slot may be asked for at `now`.
    pub open spec fn due(self, now: u64) -> bool {
        now >= self.next_at && self.attempts < FRAME_RETRY_GIVE_UP
    }

    /// The entry with its clock pushed forward.
    pub open spec fn held_back(self, now: u64) -> FrameRetry {
        FrameRetry { next_at: (now + retry_wait(self.attempts)) as u64, ..self }
    }

    fn is_due(&self, now: u64) -> (r: bool)
        ensures
            r == self.due(now),
    {
        now >= self.next_at && !frame_retry_policy().exhausted(self.attempts)
    }

    fn hold_back(&self, now: u64) -> (r: FrameRetry)
        requires
            now <= CLOCK_LIMIT,
        ensures
            r == self.held_back(now),
    {
        let wait: u128 = frame_retry_delay(self.attempts).as_nanos();
        FrameRetry { attempts: self.attempts, next_at: now + wait as u64 }
    }
}

/// How readily a slot can be shown.
#[derive(Debug, Clone, Copy, PartialEq, Eq, Structural)]
pub enum SlotState {
    InRam,
    OnDisk,
    Missing,
}

/// What a radar fetch reports.
#[derive(Debug)]
pub enum RadarRefreshPayload {
    /// One tile of a frame that is still loading.
    Tile(RadarTile),
    /// The frame is complete; its tiles may have come one by one already.
    Ready(RadarFrame),
    Error(String),
}

#[derive(Debug)]
pub struct RadarRefreshResult {
    pub id: u64,
    pub result: RadarRefreshPayload,
}

/// The outcome of preloading one slot; no frame where it failed.
#[derive(Debug)]
pub struct RadarPreloadResult {
    pub timestamp: i64,
    pub tile_zoom: u8,
    pub frame: Option<RadarFrame>,
}

/// What is to be done about the radar's background work.
#[derive(Debug)]
pub struct RadarPlan {
    /// Stop the running preload pass.
    pub abort_preload: bool,
    /// Stop the running fetch.
    pub abort_refresh: bool,
    /// Start a fetch with this id, of this slot.
    pub fetch: Option<(u64, i64)>,
    /// Start a preload pass over these slots, where there are any.
    pub preload: Vec<i64>,
}

#[verifier::ext_equal]
pub struct PlanModel {
    pub abort_preload: bool,
    pub abort_refresh: bool,
    pub fetch: Option<(u64, i64)>,
    pub preload: Seq<i64>,
}

impl View for RadarPlan {
    type V = PlanModel;

    open spec fn view(&self) -> PlanModel {
        PlanModel {
            abort_preload: self.abort_preload,
            abort_refresh: self.abort_refresh,
            fetch: self.fetch,
            preload: self.preload@,
        }
    }
}

impl PlanModel {
    pub open spec fn nothing() -> PlanModel {
        PlanModel {
            abort_preload: false,
            abort_refresh: false,
            fetch: None,
            preload: Seq::empty(),
        }
    }
}

impl RadarPlan {
    fn nothing() -> (p: RadarPlan)
        ensures
            p@ == PlanModel::nothing(),
    {
        let p = RadarPlan {
            abort_preload: false,
            abort_refresh: false,
            fetch: None,
            preload: Vec::new(),
        };
        assert(p@.preload =~= Seq::empty());
        p
    }
}

/// The state of the radar layer.
#[derive(Debug)]
pub struct Radar {
    /// The slot that was asked for last.
    pub requested_ts: Option<i64>,
    /// The slot whose tiles are on screen.
    pub frame_ts: Option<i64>,
    pub frame: Option<RadarFrame>,
    /// Frames in memory, all built at `cache_zoom`.
    pub cache: SlotMap<RadarFrame>,
    pub cache_zoom: u8,
    pub failures: SlotMap<FrameRetry>,
    /// Slots whose data is on disk.
    pub disk_frames: Vec<i64>,
    pub refresh_id: u64,
    pub refreshing: bool,
    pub preloading: bool,
    pub is_dragging: bool,
}

#[verifier::ext_equal]
pub struct RadarModel {
    pub requested: Option<i64>,
    pub frame_ts: Option<i64>,
    pub frame: Option<FrameModel>,
    pub cache: Map<i64, FrameModel>,
    pub cache_zoom: u8,
    pub failures: Map<i64, FrameRetry>,
    pub disk: Set<i64>,
    pub refresh_id: u64,
    pub refreshing: bool,
    pub preloading: bool,
    pub dragging: bool,
}

pub open spec fn frame_models(m: Map<i64, RadarFrame>) -> Map<i64, FrameModel> {
    m.map_values(|f: RadarFrame| f@)
}

pub open spec fn frame_model(f: Option<RadarFrame>) -> Option<FrameModel> {
    match f {
        Some(f) => Some(f@),
        None => None,
    }
}

impl View for Radar {
    type V = RadarModel;

    open spec fn view(&self) -> RadarModel {
        RadarModel {
            requested: self.requested_ts,
            frame_ts: self.frame_ts,
            frame: frame_model(self.frame),
            cache: frame_models(self.cache.map()),
            cache_zoom: self.cache_zoom,
            failures: self.failures.map(),
            disk: self.disk_frames@.to_set(),
            refresh_id: self.refresh_id,
            refreshing: self.refreshing,
            preloading: self.preloading,
            dragging: self.is_dragging,
        }
    }
}

/// The tile zoom for a view zoom: the nearest whole one from 1 to 7, halves
/// rounded up.
pub open spec fn tile_zoom_for(zoom: Double) -> int {
    if zoom.nan() {
        0
    } else {
        let nearest = (zoom.floor_at(1) + 1) / 2;
        if nearest < 1 {
            1
        } else if nearest > 7 {
            7
        } else {
            nearest
        }
    }
}

pub fn tile_zoom(zoom: Double) -> (z: u8)
    ensures
        z == tile_zoom_for(zoom),
        z <= 7,
{
    if zoom.is_nan() {
        return 0;
    }
    let halves: u32 = zoom.floor_clamped(1, 20);
    let nearest: u32 = (halves + 1) / 2;
    if nearest < 1 {
        1
    } else if nearest > 7 {
        7
    } else {
        nearest as u8
    }
}

impl RadarModel {
    /// Nothing is known and nothing is under way.
    pub open spec fn at_first() -> RadarModel {
        RadarModel {
            requested: None,
            frame_ts: None,
            frame: None,
            cache: Map::empty(),
            cache_zoom: 0,
            failures: Map::empty(),
            disk: Set::empty(),
            refresh_id: 0,
            refreshing: false,
            preloading: false,
            dragging: false,
        }
    }

    /// Whether the preload pass may ask for `ts`.
    pub open spec fn wants(self, t: TimelineModel, ts: i64, now: u64) -> bool {
        &&& !self.cache.dom().contains(ts)
        &&& t.current() != Some(ts)
        &&& self.failures.dom().contains(ts) ==> self.failures[ts].due(now)
    }

    /// The wanted places among the first `n` of the timeline.
    pub open spec fn wanted(self, t: TimelineModel, now: u64, n: nat) -> Seq<int>
        decreases n,
    {
        if n == 0 {
            Seq::empty()
        } else {
            let before = self.wanted(t, now, (n - 1) as nat);
            if self.wants(t, t.slots[n - 1], now) {
                before.push(n - 1)
            } else {
                before
            }
        }
    }

    /// The slots of a preload pass: the wanted ones nearest to the playhead
    /// round the ring, at most a window of them.
    pub open spec fn preload_list(self, t: TimelineModel, now: u64) -> Seq<i64> {
        let places = self.wanted(t, now, t.slots.len());
        let slots = places.map_values(|i: int| t.slots[i]);
        let ranks = places.map_values(|i: int| around(i, t.index, t.slots.len() as int) as usize);
        let all = by_rank(slots, ranks);
        if all.len() <= PRELOAD_WINDOW {
            all
        } else {
            all.take(PRELOAD_WINDOW as int)
        }
    }

    /// The failures with those of `list` held back.
    pub open spec fn failures_held(self, list: Seq<i64>, now: u64) -> Map<i64, FrameRetry> {
        Map::new(
            |k: i64| self.failures.dom().contains(k),
            |k: i64|
                if list.contains(k) {
                    self.failures[k].held_back(now)
                } else {
                    self.failures[k]
                },
        )
    }

    /// The state after a preload pass was asked for.
    pub open spec fn preload_started(self, t: TimelineModel, shown: bool, now: u64) -> RadarModel {
        if self.dragging {
            self
        } else if t.slots.len() == 0 || !shown {
            RadarModel { preloading: false, ..self }
        } else {
            let list = self.preload_list(t, now);
            RadarModel {
                preloading: list.len() > 0,
                failures: self.failures_held(list, now),
                ..self
            }
        }
    }

    /// What is done when a preload pass is asked for: a running one stops, and
    /// a new one starts over the wanted slots. Nothing happens during a drag.
    pub open spec fn preload_plan(self, t: TimelineModel, shown: bool, now: u64) -> PlanModel {
        if self.dragging {
            PlanModel::nothing()
        } else {
            PlanModel {
                abort_preload: self.preloading,
                preload: if t.slots.len() == 0 || !shown {
                    Seq::empty()
                } else {
                    self.preload_list(t, now)
                },
                ..PlanModel::nothing()
            }
        }
    }

    /// A failed attempt at `ts`.
    pub open spec fn failed(self, ts: i64, now: u64) -> RadarModel {
        let before: int = if self.failures.dom().contains(ts) {
            self.failures[ts].attempts as int
        } else {
            0
        };
        let attempts: u32 = if before < u32::MAX {
            (before + 1) as u32
        } else {
            u32::MAX
        };
        let entry = FrameRetry { attempts, next_at: 0 };
        RadarModel { failures: self.failures.insert(ts, entry.held_back(now)), ..self }
    }
}

impl Radar {
    pub open spec fn well_formed(self) -> bool {
        self.cache.well_formed() && self.failures.well_formed()
    }

    /// The radar once more pressing work has come up: its fetches ahead stop.
    pub open spec fn making_way(self, pressing: bool) -> Radar {
        if pressing {
            Radar { preloading: false, ..self }
        } else {
            self
        }
    }

    /// Stop the fetches ahead where other work is more pressing.
    pub fn make_way(&mut self, pressing: bool)
        ensures
            *final(self) == old(self).making_way(pressing),
    {
        if pressing {
            self.preloading = false;
        }
    }

    pub fn new() -> (r: Radar)
        ensures
            r.well_formed(),
            r@ == RadarModel::at_first(),
    {
        let r = Radar {
            requested_ts: None,
            frame_ts: None,
            frame: None,
            cache: SlotMap::new(),
            cache_zoom: 0,
            failures: SlotMap::new(),
            disk_frames: Vec::new(),
            refresh_id: 0,
            refreshing: false,
            preloading: false,
            is_dragging: false,
        };
        assert(r@.cache =~= Map::empty());
        assert(r@.disk =~= Set::empty());
        r
    }

    /// Record a failed slot and set when it may be tried again.
    pub fn note_frame_failure(&mut self, ts: i64, now: u64)
        requires
            old(self).well_formed(),
            now <= CLOCK_LIMIT,
        ensures
            final(self).well_formed(),
            final(self)@ == old(self)@.failed(ts, now),
    {
        let before: u32 = match self.failures.get(ts) {
            Some(r) => r.attempts,
            None => 0,
        };
        let attempts: u32 = before.saturating_add(1);
        let entry = FrameRetry { attempts, next_at: 0 };
        self.failures.insert(ts, entry.hold_back(now));
    }

    fn wants_slot(&self, timeline: &Timeline, ts: i64, now: u64) -> (r: bool)
        requires
            self.well_formed(),
        ensures
            r == self@.wants(timeline@, ts, now),
    {
        if self.cache.contains(ts) {
            return false;
        }
        let on_screen = match timeline.current() {
            Some(c) => c == ts,
            None => false,
        };
        if on_screen {
            return false;
        }
        match self.failures.get(ts) {
            Some(r) => r.is_due(now),
            None => true,
        }
    }

    fn preload_slots(&self, timeline: &Timeline, now: u64) -> (list: Vec<i64>)
        requires
            self.well_formed(),
            timeline@.valid(),
        ensures
            list@ == self@.preload_list(timeline@, now),
    {
        let ghost t = timeline@;
        let len: usize = timeline.timestamps.len();
        let mut slots: Vec<i64> = Vec::new();
        let mut ranks: Vec<usize> = Vec::new();
        let ghost slot_of = |i: int| t.slots[i];
        let ghost rank_of = |i: int| around(i, t.index, t.slots.len() as int) as usize;
        let mut i: usize = 0;
        assert(self@.wanted(t, now, 0).map_values(slot_of) =~= Seq::<i64>::empty());
        assert(self@.wanted(t, now, 0).map_values(rank_of) =~= Seq::<usize>::empty());
        while i < len
            invariant
                i <= len,
                len == timeline.timestamps.len(),
                self.well_formed(),
                t == timeline@,
                t.valid(),
                slot_of == (|i: int| t.slots[i]),
                rank_of == (|i: int| around(i, t.index, t.slots.len() as int) as usize),
                slots@ == self@.wanted(t, now, i as nat).map_values(slot_of),
                ranks@ == self@.wanted(t, now, i as nat).map_values(rank_of),
            decreases len - i,
        {
            let ts = timeline.timestamps[i];
            let ghost before = self@.wanted(t, now, i as nat);
            if self.wants_slot(timeline, ts, now) {
                slots.push(ts);
                ranks.push(ring_distance(i, timeline.frame_index, len));
                assert(slots@ =~= before.push(i as int).map_values(slot_of));
                assert(ranks@ =~= before.push(i as int).map_values(rank_of));
            }
            i = i + 1;
        }
        let order = sorted_indices(&ranks);
        let ghost ints = order@.map_values(|i: usize| i as int);
        let ghost all = by_rank(slots@, ranks@);
        let n: usize = if order.len() <= PRELOAD_WINDOW {
            order.len()
        } else {
            PRELOAD_WINDOW
        };
        let mut list: Vec<i64> = Vec::new();
        let mut k: usize = 0;
        while k < n
            invariant
                k <= n <= order.len(),
                order.len() == slots.len(),
                ints == order@.map_values(|i: usize| i as int),
                ints == rank_order(ranks@, ranks@.len()),
                all == by_rank(slots@, ranks@),
                forall|j: int| 0 <= j < order.len() ==> (#[trigger] order@[j]) < slots.len(),
                list@ == all.take(k as int),
            decreases n - k,
        {
            assert(ints[k as int] == order@[k as int] as int);
            list.push(slots[order[k]]);
            assert(list@ =~= all.take(k + 1));
            k = k + 1;
        }
        assert(all.len() == order.len());
        assert(all.take(all.len() as int) =~= all);
        list
    }

    /// Ask for a preload pass around the playhead.
    pub fn trigger_radar_preload(
        &mut self,
        timeline: &Timeline,
        layers: &LayerRegistry,
        now: u64,
    ) -> (plan: RadarPlan)
        requires
            old(self).well_formed(),
            timeline@.valid(),
            layers.well_formed(),
            now <= CLOCK_LIMIT,
        ensures
            final(self).well_formed(),
            final(self)@ == old(self)@.preload_started(
                timeline@,
                layers.shown(LayerId::Radar),
                now,
            ),
            plan@ == old(self)@.preload_plan(timeline@, layers.shown(LayerId::Radar), now),
    {
        let mut plan = RadarPlan::nothing();
        if self.is_dragging {
            return plan;
        }
        plan.abort_preload = self.preloading;
        self.preloading = false;
        if timeline.timestamps.len() == 0 || !layers.enabled(LayerId::Radar) {
            assert(plan@.preload =~= Seq::empty());
            return plan;
        }
        let ghost m0 = old(self)@;
        let list = self.preload_slots(timeline, now);
        assert(list@ == m0.preload_list(timeline@, now)) by {
            lemma_list_ignores_preloading(m0, self@, timeline@, now, timeline@.slots.len());
        }
        let mut i: usize = 0;
        while i < list.len()
            invariant
                i <= list.len(),
                self.well_formed(),
                now <= CLOCK_LIMIT,
                self@ == (RadarModel { failures: self@.failures, preloading: false, ..m0 }),
                forall|k: i64| #[trigger]
                    self@.failures.dom().contains(k) <==> m0.failures.dom().contains(k),
                forall|k: i64| #[trigger]
                    self@.failures.dom().contains(k) ==> self@.failures[k] == (if list@.take(
                        i as int,
                    ).contains(k) {
                        m0.failures[k].held_back(now)
                    } else {
                        m0.failures[k]
                    }),
            decreases list.len() - i,
        {
            let ts = list[i];
            let ghost t0 = list@.take(i as int);
            let ghost t1 = list@.take(i + 1);
            proof {
                assert(t1 =~= t0.push(ts));
                assert(t1[i as int] == ts);
                assert forall|x: i64| x != ts implies (#[trigger] t1.contains(x)
                    <==> t0.contains(x)) by {
                    if t0.contains(x) {
                        let j = choose|j: int| 0 <= j < t0.len() && t0[j] == x;
                        assert(t1[j] == x);
                    }
                    if t1.contains(x) {
                        let j = choose|j: int| 0 <= j < t1.len() && t1[j] == x;
                        assert(t0[j] == x);
                    }
                }
            }
            let entry: Option<FrameRetry> = match self.failures.get(ts) {
                Some(r) => Some(*r),
                None => None,
            };
            if let Some(r) = entry {
                assert(self@.failures.dom().contains(ts));
                self.failures.insert(ts, r.hold_back(now));
            }
            i = i + 1;
        }
        assert(list@.take(i as int) =~= list@);
        self.preloading = list.len() > 0;
        assert(self@.failures =~= m0.failures_held(list@, now));
        plan.preload = list;
        plan
    }
}

/// The earliest of some slots.
pub open spec fn is_earliest(slots: Set<i64>, ts: i64) -> bool {
    slots.contains(ts) && forall|x: i64| #[trigger] slots.contains(x) ==> ts <= x
}

/// The frames in memory after one more, with the earliest dropped where that
/// makes too many.
pub open spec fn remembered(
    cache: Map<i64, FrameModel>,
    ts: i64,
    frame: FrameModel,
) -> Map<i64, FrameModel> {
    let all = cache.insert(ts, frame);
    if all.dom().len() > REFRESH_CACHE_MAX {
        all.remove(choose|x: i64| is_earliest(all.dom(), x))
    } else {
        all
    }
}

impl RadarModel {
    /// Frames built at another zoom are dropped, and their preload pass with
    /// them.
    pub open spec fn at_tile_zoom(self, z: u8) -> RadarModel {
        if z != self.cache_zoom {
            RadarModel { cache: Map::empty(), cache_zoom: z, preloading: false, ..self }
        } else {
            self
        }
    }

    /// Whether the frame for `ts` is in memory and covers the view.
    pub open spec fn can_serve(self, ts: i64, bounds: Bounds, z: u8) -> bool {
        self.cache.dom().contains(ts) && self.cache[ts].covers(bounds, z)
    }

    /// The frame in memory for `ts` put on screen.
    pub open spec fn served(self, ts: i64, bounds: Bounds) -> RadarModel {
        RadarModel {
            frame: Some(self.cache[ts].trimmed(bounds)),
            requested: Some(ts),
            frame_ts: Some(ts),
            ..self
        }
    }

    /// Whether the frame on screen, or the fetch under way, is already for
    /// `ts`.
    pub open spec fn has_or_awaits(self, ts: i64, bounds: Bounds, z: u8) -> bool {
        self.requested == Some(ts) && (self.refreshing || match self.frame {
            Some(f) => f.covers(bounds, z),
            None => false,
        })
    }

    /// The state after the view asked for its frame.
    pub open spec fn refresh_asked(
        self,
        t: TimelineModel,
        shown: bool,
        bounds: Bounds,
        z: u8,
        now: u64,
    ) -> RadarModel {
        if !shown || t.current() is None {
            self
        } else {
            let ts = t.current()->0;
            let m = self.at_tile_zoom(z);
            if m.can_serve(ts, bounds, z) {
                m.served(ts, bounds).preload_started(t, shown, now)
            } else {
                let n = RadarModel { preloading: false, ..m };
                if n.has_or_awaits(ts, bounds, z) {
                    n
                } else {
                    RadarModel {
                        requested: Some(ts),
                        refreshing: true,
                        refresh_id: next_id(self.refresh_id),
                        ..n
                    }
                }
            }
        }
    }

    /// What is done when the view asks for its frame.
    pub open spec fn refresh_plan(
        self,
        t: TimelineModel,
        shown: bool,
        bounds: Bounds,
        z: u8,
        now: u64,
    ) -> PlanModel {
        if !shown || t.current() is None {
            PlanModel::nothing()
        } else {
            let ts = t.current()->0;
            let m = self.at_tile_zoom(z);
            let stale = self.preloading && !m.preloading;
            if m.can_serve(ts, bounds, z) {
                let p = m.served(ts, bounds).preload_plan(t, shown, now);
                PlanModel { abort_preload: p.abort_preload || stale, ..p }
            } else {
                let stop = PlanModel { abort_preload: self.preloading, ..PlanModel::nothing() };
                if m.has_or_awaits(ts, bounds, z) {
                    stop
                } else {
                    PlanModel {
                        abort_refresh: m.refreshing,
                        fetch: Some((next_id(self.refresh_id), ts)),
                        ..stop
                    }
                }
            }
        }
    }

    /// The layer's status after the view asked for its frame, where it changes.
    pub open spec fn refresh_status(
        self,
        t: TimelineModel,
        shown: bool,
        bounds: Bounds,
        z: u8,
    ) -> Option<LayerStatus> {
        if !shown || t.current() is None {
            None
        } else {
            let ts = t.current()->0;
            let m = self.at_tile_zoom(z);
            if m.can_serve(ts, bounds, z) {
                Some(LayerStatus::Ready)
            } else if m.has_or_awaits(ts, bounds, z) {
                None
            } else {
                Some(LayerStatus::Loading)
            }
        }
    }

    /// A streamed tile: it starts a new frame where the slot asked for is not
    /// the one on screen.
    pub open spec fn tile_arrived(self, tile: TileModel) -> RadarModel {
        let frame = if self.frame_ts != self.requested {
            None
        } else {
            self.frame
        };
        RadarModel {
            frame_ts: self.requested,
            frame: Some(
                match frame {
                    Some(f) => f.streamed(tile),
                    None => FrameModel {
                        time: match self.requested {
                            Some(ts) => ts,
                            None => 0,
                        },
                        path: Seq::empty(),
                        tiles: seq![tile],
                        missing_tiles: 0,
                        target_zoom: tile.coord.z,
                    },
                },
            ),
            ..self
        }
    }

    /// The frame on screen once a fetch is complete: merged where it brings
    /// tiles, renamed where they came one by one.
    pub open spec fn completed(self, frame: FrameModel) -> FrameModel {
        match self.frame {
            Some(f) => if frame.tiles.len() > 0 {
                f.merged(frame)
            } else {
                FrameModel { tiles: f.tiles, ..frame }
            },
            None => frame,
        }
    }

    /// The timeline once `req` turned out to be the frame of `actual`.
    pub open spec fn resolved_timeline(t: TimelineModel, req: i64, actual: i64) -> TimelineModel {
        match without_phantom(t.slots, t.index, req, actual, t.mode == PlaybackMode::Live) {
            Some((slots, index)) => TimelineModel { slots, index, ..t },
            None => t,
        }
    }

    /// The radar once `req` turned out not to be published.
    pub open spec fn without_slot(self, t: TimelineModel, req: i64) -> RadarModel {
        if t.slots.contains(req) {
            RadarModel { cache: self.cache.remove(req), ..self }
        } else {
            self
        }
    }

    /// The timeline after a fetch is complete.
    pub open spec fn ready_timeline(self, t: TimelineModel, frame: FrameModel) -> TimelineModel {
        let shown = self.completed(frame);
        match self.requested {
            Some(req) => if shown.time != req {
                RadarModel::resolved_timeline(t, req, shown.time)
            } else {
                t
            },
            None => t,
        }
    }

    /// The radar after a fetch is complete, before the next preload pass.
    pub open spec fn ready(
        self,
        t: TimelineModel,
        frame: FrameModel,
        bounds: Bounds,
        z: u8,
    ) -> RadarModel {
        let shown = self.completed(frame).trimmed(bounds);
        let m = RadarModel {
            frame_ts: self.requested,
            frame: Some(shown),
            refreshing: false,
            ..self
        };
        let n = match self.requested {
            Some(req) => RadarModel {
                failures: m.failures.remove(req),
                ..if shown.time != req {
                    m.without_slot(t, req)
                } else {
                    m
                }
            },
            None => m,
        };
        let t1 = self.ready_timeline(t, frame);
        RadarModel {
            failures: n.failures.remove(shown.time),
            cache: if z == n.cache_zoom && t1.slots.contains(shown.time) {
                remembered(n.cache, shown.time, shown)
            } else {
                n.cache
            },
            ..n
        }
    }

    /// The radar after a fetch failed: the slot is queued for another try.
    pub open spec fn fetch_failed(self, now: u64) -> RadarModel {
        let m = RadarModel { refreshing: false, ..self };
        match self.requested {
            Some(ts) => m.failed(ts, now),
            None => m,
        }
    }
}

/// The id after `id`; ids wrap.
pub open spec fn next_id(id: u64) -> u64 {
    if id == u64::MAX {
        0
    } else {
        (id + 1) as u64
    }
}

pub fn id_after(id: u64) -> (r: u64)
    ensures
        r == next_id(id),
{
    id.wrapping_add(1)
}

impl Radar {
    /// Show the frame of the slot on screen: from memory where it covers the
    /// view, otherwise through a fetch, unless that is under way.
    pub fn request_meteogate_refresh(
        &mut self,
        timeline: &Timeline,
        layers: &mut LayerRegistry,
        bounds: Bounds,
        z: u8,
        now: u64,
    ) -> (plan: RadarPlan)
        requires
            old(self).well_formed(),
            old(layers).well_formed(),
            timeline@.valid(),
            z <= 31,
            now <= CLOCK_LIMIT,
        ensures
            final(self).well_formed(),
            final(self)@ == old(self)@.refresh_asked(
                timeline@,
                old(layers).shown(LayerId::Radar),
                bounds,
                z,
                now,
            ),
            plan@ == old(self)@.refresh_plan(
                timeline@,
                old(layers).shown(LayerId::Radar),
                bounds,
                z,
                now,
            ),
            match old(self)@.refresh_status(
                timeline@,
                old(layers).shown(LayerId::Radar),
                bounds,
                z,
            ) {
                Some(status) => old(layers).updated(*final(layers), LayerId::Radar, status, now),
                None => *final(layers) == *old(layers),
            },
    {
        let mut plan = RadarPlan::nothing();
        if !layers.enabled(LayerId::Radar) {
            return plan;
        }
        let ts: i64 = match timeline.current() {
            Some(ts) => ts,
            None => {
                return plan;
            },
        };
        let was_preloading = self.preloading;
        if z != self.cache_zoom {
            self.cache.clear();
            self.cache_zoom = z;
            self.preloading = false;
            assert(self@.cache =~= Map::empty());
        }
        let ghost m = old(self)@.at_tile_zoom(z);
        assert(self@ == m);
        let stale = was_preloading && !self.preloading;
        let cached: Option<RadarFrame> = match self.cache.get(ts) {
            Some(f) => if f.covers_bounds(bounds, z) {
                Some(f.duplicate())
            } else {
                None
            },
            None => None,
        };
        if let Some(mut frame) = cached {
            frame.trim_to_bounds(bounds);
            self.frame = Some(frame);
            self.requested_ts = Some(ts);
            self.frame_ts = Some(ts);
            assert(self@ == m.served(ts, bounds));
            layers.set_status(LayerId::Radar, LayerStatus::Ready, now);
            let mut p = self.trigger_radar_preload(timeline, layers, now);
            p.abort_preload = p.abort_preload || stale;
            return p;
        }
        plan.abort_preload = was_preloading;
        self.preloading = false;
        let same = match self.requested_ts {
            Some(r) => r == ts,
            None => false,
        };
        let covered = match &self.frame {
            Some(f) => f.covers_bounds(bounds, z),
            None => false,
        };
        if same && (self.refreshing || covered) {
            return plan;
        }
        self.requested_ts = Some(ts);
        plan.abort_refresh = self.refreshing;
        self.refreshing = true;
        self.refresh_id = id_after(self.refresh_id);
        plan.fetch = Some((self.refresh_id, ts));
        layers.set_status(LayerId::Radar, LayerStatus::Loading, now);
        plan
    }

    /// Drop a slot that turned out not to be published. Returns whether the
    /// timeline changed.
    pub fn drop_phantom_slot(
        &mut self,
        timeline: &mut Timeline,
        req_ts: i64,
        resolved_ts: i64,
    ) -> (changed: bool)
        requires
            old(self).well_formed(),
            old(timeline)@.valid(),
        ensures
            final(self).well_formed(),
            changed == old(timeline)@.slots.contains(req_ts),
            final(timeline)@ == RadarModel::resolved_timeline(
                old(timeline)@,
                req_ts,
                resolved_ts,
            ),
            final(timeline)@.valid(),
            final(self)@ == old(self)@.without_slot(old(timeline)@, req_ts),
    {
        let live = timeline.playback_mode == PlaybackMode::Live;
        match timeline_without_phantom(
            &timeline.timestamps,
            timeline.frame_index,
            req_ts,
            resolved_ts,
            live,
        ) {
            Some((slots, index)) => {
                timeline.timestamps = slots;
                timeline.frame_index = index;
                let _ = self.cache.remove(req_ts);
                assert(self@.cache =~= old(self)@.cache.remove(req_ts));
                true
            },
            None => false,
        }
    }

    /// Take in what the running fetch reports. A result of an earlier fetch is
    /// ignored.
    pub fn drain_refresh_result(
        &mut self,
        timeline: &mut Timeline,
        layers: &mut LayerRegistry,
        result: RadarRefreshResult,
        bounds: Bounds,
        z: u8,
        now: u64,
    ) -> (r: (bool, RadarPlan))
        requires
            old(self).well_formed(),
            old(layers).well_formed(),
            old(timeline)@.valid(),
            now <= CLOCK_LIMIT,
        ensures
            final(self).well_formed(),
            final(timeline)@.valid(),
            r.0 == (result.id == old(self)@.refresh_id),
            !r.0 ==> {
                &&& final(self)@ == old(self)@
                &&& final(timeline)@ == old(timeline)@
                &&& *final(layers) == *old(layers)
                &&& r.1@ == PlanModel::nothing()
            },
            r.0 ==> match result.result {
                RadarRefreshPayload::Tile(tile) => {
                    &&& final(self)@ == old(self)@.tile_arrived(tile@)
                    &&& final(timeline)@ == old(timeline)@
                    &&& *final(layers) == *old(layers)
                    &&& r.1@ == PlanModel::nothing()
                },
                RadarRefreshPayload::Ready(frame) => {
                    let t = old(self)@.ready_timeline(old(timeline)@, frame@);
                    let m = old(self)@.ready(old(timeline)@, frame@, bounds, z);
                    let shown = old(layers).shown(LayerId::Radar);
                    &&& final(timeline)@ == t
                    &&& final(self)@ == m.preload_started(t, shown, now)
                    &&& r.1@ == m.preload_plan(t, shown, now)
                    &&& old(layers).updated(
                        *final(layers),
                        LayerId::Radar,
                        LayerStatus::Ready,
                        now,
                    )
                },
                RadarRefreshPayload::Error(error) => {
                    &&& final(self)@ == old(self)@.fetch_failed(now)
                    &&& final(timeline)@ == old(timeline)@
                    &&& r.1@ == PlanModel::nothing()
                    &&& old(layers).updated(
                        *final(layers),
                        LayerId::Radar,
                        LayerStatus::Error(error),
                        now,
                    )
                },
            },
    {
        if result.id != self.refresh_id {
            return (false, RadarPlan::nothing());
        }
        match result.result {
            RadarRefreshPayload::Tile(tile) => {
                self.take_tile(tile);
                (true, RadarPlan::nothing())
            },
            RadarRefreshPayload::Ready(frame) => {
                self.take_frame(timeline, frame, bounds, z);
                layers.set_status(LayerId::Radar, LayerStatus::Ready, now);
                let plan = self.trigger_radar_preload(timeline, layers, now);
                (true, plan)
            },
            RadarRefreshPayload::Error(error) => {
                layers.set_status(LayerId::Radar, LayerStatus::Error(error), now);
                self.refreshing = false;
                if let Some(ts) = self.requested_ts {
                    self.note_frame_failure(ts, now);
                }
                (true, RadarPlan::nothing())
            },
        }
    }

    fn take_tile(&mut self, tile: RadarTile)
        requires
            old(self).well_formed(),
        ensures
            final(self).well_formed(),
            final(self)@ == old(self)@.tile_arrived(tile@),
    {
        let same = match (self.frame_ts, self.requested_ts) {
            (Some(a), Some(b)) => a == b,
            (None, None) => true,
            _ => false,
        };
        if !same {
            self.frame = None;
            self.frame_ts = self.requested_ts;
        }
        let current = self.frame.take();
        self.frame = match current {
            Some(mut f) => {
                f.add_tile(tile);
                Some(f)
            },
            None => {
                let z = tile.coord.z;
                let mut tiles: Vec<RadarTile> = Vec::new();
                let ghost model = tile@;
                tiles.push(tile);
                let f = RadarFrame {
                    time: match self.requested_ts {
                        Some(ts) => ts,
                        None => 0,
                    },
                    path: String::new(),
                    tiles,
                    missing_tiles: 0,
                    target_zoom: z,
                };
                assert(f@.tiles =~= seq![model]);
                Some(f)
            },
        };
    }

    fn take_frame(&mut self, timeline: &mut Timeline, frame: RadarFrame, bounds: Bounds, z: u8)
        requires
            old(self).well_formed(),
            old(timeline)@.valid(),
        ensures
            final(self).well_formed(),
            final(timeline)@ == old(self)@.ready_timeline(old(timeline)@, frame@),
            final(timeline)@.valid(),
            final(self)@ == old(self)@.ready(old(timeline)@, frame@, bounds, z),
    {
        let ghost m0 = self@;
        let ghost t0 = timeline@;
        let ghost incoming = frame@;
        self.frame_ts = self.requested_ts;
        let current = self.frame.take();
        let mut shown: RadarFrame = match current {
            Some(mut f) => {
                if frame.tiles.len() > 0 {
                    f.merge_tiles(frame);
                    f
                } else {
                    RadarFrame {
                        time: frame.time,
                        path: frame.path,
                        tiles: f.tiles,
                        missing_tiles: frame.missing_tiles,
                        target_zoom: frame.target_zoom,
                    }
                }
            },
            None => frame,
        };
        assert(shown@ == m0.completed(incoming));
        shown.trim_to_bounds(bounds);
        let actual: i64 = shown.time;
        let copy = shown.duplicate();
        self.frame = Some(shown);
        self.refreshing = false;
        if let Some(req) = self.requested_ts {
            if actual != req {
                let _ = self.drop_phantom_slot(timeline, req, actual);
            }
            let _ = self.failures.remove(req);
        }
        let _ = self.failures.remove(actual);
        if z == self.cache_zoom && contains_slot(&timeline.timestamps, actual) {
            self.remember(actual, copy);
        }
    }

    fn remember(&mut self, ts: i64, frame: RadarFrame)
        requires
            old(self).well_formed(),
        ensures
            final(self).well_formed(),
            final(self)@ == (RadarModel {
                cache: remembered(old(self)@.cache, ts, frame@),
                ..old(self)@
            }),
    {
        let ghost c0 = self@.cache;
        self.cache.insert(ts, frame);
        let ghost all = c0.insert(ts, frame@);
        assert(self@.cache =~= all);
        proof {
            self.cache.lemma_slots();
        }
        assert(self.cache.map().dom() =~= all.dom());
        if self.cache.len() > REFRESH_CACHE_MAX {
            let oldest = earliest_slot(&self.cache);
            proof {
                let chosen = choose|x: i64| is_earliest(all.dom(), x);
                assert(is_earliest(all.dom(), oldest));
                assert(is_earliest(all.dom(), chosen));
                assert(chosen == oldest);
            }
            let _ = self.cache.remove(oldest);
            assert(self@.cache =~= all.remove(oldest));
        }
    }
}

/// What remains of the frames in memory once those farthest from the playhead
/// are dropped.
pub open spec fn pruned(
    cache: Map<i64, FrameModel>,
    keys: Seq<i64>,
    t: TimelineModel,
) -> Map<i64, FrameModel> {
    cache.remove_keys(evicted(keys, t.slots, t.index, FRAME_CACHE_MAX as nat).to_set())
}

/// The outcome of preloading one slot, as a model.
#[verifier::ext_equal]
pub struct PreloadModel {
    pub timestamp: i64,
    pub tile_zoom: u8,
    pub frame: Option<FrameModel>,
}

impl View for RadarPreloadResult {
    type V = PreloadModel;

    open spec fn view(&self) -> PreloadModel {
        PreloadModel {
            timestamp: self.timestamp,
            tile_zoom: self.tile_zoom,
            frame: frame_model(self.frame),
        }
    }
}

impl RadarModel {
    /// Whether a preload result still concerns the view.
    pub open spec fn concerns(t: TimelineModel, r: PreloadModel, z: u8) -> bool {
        r.tile_zoom == z && t.slots.contains(r.timestamp)
    }

    /// The timeline after a preload result: a slot that resolved to another
    /// time leaves it.
    pub open spec fn preloaded_timeline(
        t: TimelineModel,
        r: PreloadModel,
        z: u8,
    ) -> TimelineModel {
        if !RadarModel::concerns(t, r, z) || r.frame is None || r.frame->0.time == r.timestamp {
            t
        } else {
            RadarModel::resolved_timeline(t, r.timestamp, r.frame->0.time)
        }
    }

    /// The radar after a preload result: the frame is kept under the time that
    /// it really holds, a failed slot is queued for another try.
    pub open spec fn preloaded(
        self,
        t: TimelineModel,
        r: PreloadModel,
        z: u8,
        now: u64,
    ) -> RadarModel {
        if !RadarModel::concerns(t, r, z) {
            self
        } else {
            match r.frame {
                None => self.failed(r.timestamp, now),
                Some(f) => {
                    let m = if f.time != r.timestamp {
                        self.without_slot(t, r.timestamp)
                    } else {
                        self
                    };
                    if RadarModel::preloaded_timeline(t, r, z).slots.contains(f.time) {
                        RadarModel {
                            disk: m.disk.insert(f.time),
                            cache: m.cache.insert(f.time, f),
                            failures: m.failures.remove(r.timestamp).remove(f.time),
                            ..m
                        }
                    } else {
                        m
                    }
                },
            }
        }
    }

    /// Whether a preload result changes what is on screen.
    pub open spec fn preload_shows(t: TimelineModel, r: PreloadModel, z: u8) -> bool {
        RadarModel::concerns(t, r, z) && r.frame is Some
    }
}

impl Radar {
    /// Take in the outcome of preloading one slot.
    pub fn drain_preload_result(
        &mut self,
        timeline: &mut Timeline,
        result: RadarPreloadResult,
        z: u8,
        now: u64,
    ) -> (changed: bool)
        requires
            old(self).well_formed(),
            old(timeline)@.valid(),
            now <= CLOCK_LIMIT,
        ensures
            final(self).well_formed(),
            final(timeline)@.valid(),
            changed == RadarModel::preload_shows(old(timeline)@, result@, z),
            final(timeline)@ == RadarModel::preloaded_timeline(old(timeline)@, result@, z),
            final(self)@ == old(self)@.preloaded(old(timeline)@, result@, z, now),
    {
        if result.tile_zoom != z || !contains_slot(&timeline.timestamps, result.timestamp) {
            return false;
        }
        let frame: RadarFrame = match result.frame {
            Some(f) => f,
            None => {
                self.note_frame_failure(result.timestamp, now);
                return false;
            },
        };
        let actual: i64 = frame.time;
        if actual != result.timestamp {
            let _ = self.drop_phantom_slot(timeline, result.timestamp, actual);
            if !contains_slot(&timeline.timestamps, actual) {
                return true;
            }
        }
        let ghost m = self@;
        let ghost disk0 = self.disk_frames@;
        if !contains_slot(&self.disk_frames, actual) {
            self.disk_frames.push(actual);
        }
        proof {
            assert(self.disk_frames@.to_set() =~= disk0.to_set().insert(actual)) by {
                assert forall|x: i64| self.disk_frames@.contains(x) <==> x == actual
                    || disk0.contains(x) by {
                    if disk0.contains(x) {
                        let i = choose|i: int| 0 <= i < disk0.len() && disk0[i] == x;
                        assert(self.disk_frames@[i] == x);
                    }
                    if self.disk_frames@ != disk0 {
                        assert(self.disk_frames@[disk0.len() as int] == actual);
                    }
                }
            }
        }
        let ghost fm = frame@;
        self.cache.insert(actual, frame);
        assert(self@.cache =~= m.cache.insert(actual, fm));
        let _ = self.failures.remove(result.timestamp);
        let _ = self.failures.remove(actual);
        true
    }

    /// Drop the frames farthest from the playhead once there are too many.
    pub fn prune_frame_cache(&mut self, timeline: &Timeline)
        requires
            old(self).well_formed(),
            timeline@.valid(),
        ensures
            final(self).well_formed(),
            final(self)@ == (RadarModel {
                cache: pruned(old(self)@.cache, old(self).cache.slots(), timeline@),
                ..old(self)@
            }),
    {
        let ghost m0 = self@;
        let keys = self.cache.keys();
        proof {
            the_timeline_is_one_lap(
                keys@,
                timeline.timestamps@,
                timeline.frame_index as int,
            );
        }
        let gone = frames_to_evict(
            &keys,
            &timeline.timestamps,
            timeline.frame_index,
            FRAME_CACHE_MAX,
        );
        let mut i: usize = 0;
        assert(gone@.take(0).to_set() =~= Set::<i64>::empty());
        assert(self@.cache =~= m0.cache.remove_keys(gone@.take(0).to_set()));
        while i < gone.len()
            invariant
                i <= gone.len(),
                self.well_formed(),
                self@ == (RadarModel {
                    cache: m0.cache.remove_keys(gone@.take(i as int).to_set()),
                    ..m0
                }),
            decreases gone.len() - i,
        {
            let ghost before = self@.cache;
            let _ = self.cache.remove(gone[i]);
            assert(self@.cache =~= before.remove(gone@[i as int]));
            proof {
                let (a, b) = (gone@.take(i as int), gone@.take(i + 1));
                assert(b =~= a.push(gone@[i as int]));
                assert(b.to_set() =~= a.to_set().insert(gone@[i as int])) by {
                    assert forall|x: i64| b.contains(x) <==> x == gone@[i as int] || a.contains(
                        x,
                    ) by {
                        if a.contains(x) {
                            let j = choose|j: int| 0 <= j < a.len() && a[j] == x;
                            assert(b[j] == x);
                        }
                        assert(b[i as int] == gone@[i as int]);
                    }
                }
                assert(self@.cache =~= m0.cache.remove_keys(b.to_set()));
            }
            i = i + 1;
        }
        assert(gone@.take(i as int) =~= gone@);
    }

    /// How readily `ts` can be shown.
    pub fn slot_state(&self, ts: i64) -> (s: SlotState)
        requires
            self.well_formed(),
        ensures
            s == if self@.cache.dom().contains(ts) {
                SlotState::InRam
            } else if self@.disk.contains(ts) {
                SlotState::OnDisk
            } else {
                SlotState::Missing
            },
    {
        if self.cache.contains(ts) {
            SlotState::InRam
        } else if contains_slot(&self.disk_frames, ts) {
            SlotState::OnDisk
        } else {
            SlotState::Missing
        }
    }
}

impl RadarModel {
    /// Without the failures of slots that left the timeline.
    pub open spec fn on_timeline(self, t: TimelineModel) -> RadarModel {
        RadarModel { failures: self.failures.restrict(t.slots.to_set()), ..self }
    }

    /// Whether the frame on screen failed and may be asked for again.
    pub open spec fn shown_due(self, t: TimelineModel, now: u64) -> bool {
        match t.current() {
            Some(ts) => self.failures.dom().contains(ts) && self.failures[ts].due(now)
                && !self.refreshing && !self.cache.dom().contains(ts),
            None => false,
        }
    }

    /// Whether some failed slot may be asked for again.
    pub open spec fn some_due(self, now: u64) -> bool {
        exists|ts: i64| #[trigger]
            self.failures.dom().contains(ts) && self.failures[ts].due(now)
                && !self.cache.dom().contains(ts)
    }

    /// The radar once the failed frame on screen is held back for its retry.
    pub open spec fn shown_held(self, ts: i64, now: u64) -> RadarModel {
        RadarModel {
            failures: self.failures.insert(ts, self.failures[ts].held_back(now)),
            ..self
        }
    }
}

impl Radar {
    /// Ask again for failed slots that have waited long enough: the one on
    /// screen by a fetch of its own, the others by a preload pass.
    pub fn retry_due_frames(
        &mut self,
        timeline: &Timeline,
        layers: &mut LayerRegistry,
        bounds: Bounds,
        z: u8,
        now: u64,
    ) -> (plan: RadarPlan)
        requires
            old(self).well_formed(),
            old(layers).well_formed(),
            timeline@.valid(),
            z <= 31,
            now <= CLOCK_LIMIT,
        ensures
            final(self).well_formed(),
            ({
                let m0 = old(self)@;
                let t = timeline@;
                let shown = old(layers).shown(LayerId::Radar);
                let m = m0.on_timeline(t);
                if m0.failures.dom().len() == 0 || m0.dragging {
                    &&& final(self)@ == m0
                    &&& plan@ == PlanModel::nothing()
                    &&& *final(layers) == *old(layers)
                } else if m.shown_due(t, now) {
                    let h = m.shown_held(t.current()->0, now);
                    &&& final(self)@ == h.refresh_asked(t, shown, bounds, z, now)
                    &&& plan@ == h.refresh_plan(t, shown, bounds, z, now)
                    &&& match h.refresh_status(t, shown, bounds, z) {
                        Some(status) => old(layers).updated(
                            *final(layers),
                            LayerId::Radar,
                            status,
                            now,
                        ),
                        None => *final(layers) == *old(layers),
                    }
                } else if m.some_due(now) {
                    &&& final(self)@ == m.preload_started(t, shown, now)
                    &&& plan@ == m.preload_plan(t, shown, now)
                    &&& *final(layers) == *old(layers)
                } else {
                    &&& final(self)@ == m
                    &&& plan@ == PlanModel::nothing()
                    &&& *final(layers) == *old(layers)
                }
            }),
    {
        proof {
            self.failures.lemma_slots();
        }
        if self.failures.len() == 0 || self.is_dragging {
            return RadarPlan::nothing();
        }
        let ghost m0 = self@;
        self.failures.retain_in(&timeline.timestamps);
        let ghost m = m0.on_timeline(timeline@);
        assert(self@ == m);
        if let Some(ts) = timeline.current() {
            let entry: Option<FrameRetry> = match self.failures.get(ts) {
                Some(r) => if r.is_due(now) {
                    Some(*r)
                } else {
                    None
                },
                None => None,
            };
            if let Some(r) = entry {
                if !self.refreshing && !self.cache.contains(ts) {
                    self.failures.insert(ts, r.hold_back(now));
                    return self.request_meteogate_refresh(timeline, layers, bounds, z, now);
                }
            }
        }
        if self.any_due(now) {
            self.trigger_radar_preload(timeline, layers, now)
        } else {
            RadarPlan::nothing()
        }
    }

    fn any_due(&self, now: u64) -> (r: bool)
        requires
            self.well_formed(),
        ensures
            r == self@.some_due(now),
    {
        let mut i: usize = 0;
        let n: usize = self.failures.len();
        while i < n
            invariant
                i <= n,
                n == self.failures.slots().len(),
                self.well_formed(),
                forall|j: int| 0 <= j < i ==> {
                    let ts = #[trigger] self.failures.slots()[j];
                    !self.failures.map()[ts].due(now) || self@.cache.dom().contains(ts)
                },
            decreases n - i,
        {
            let (ts, retry) = self.failures.entry(i);
            if retry.is_due(now) && !self.cache.contains(ts) {
                assert(self@.failures.dom().contains(ts));
                return true;
            }
            i = i + 1;
        }
        proof {
            self.failures.lemma_slots();
            if self@.some_due(now) {
                let ts = choose|ts: i64| #[trigger]
                    self@.failures.dom().contains(ts) && self@.failures[ts].due(now)
                        && !self@.cache.dom().contains(ts);
                assert(self.failures.slots().contains(ts));
                let j = choose|j: int|
                    0 <= j < self.failures.slots().len() && self.failures.slots()[j] == ts;
                assert(self.failures.slots()[j] == ts);
            }
        }
        false
    }

    /// Take the next history depth: the timeline becomes `fresh`, the view
    /// stays on its slot or goes to the oldest left, and frames off the
    /// timeline leave memory. `disk` lists the slots found on disk.
    pub fn cycle_history_to(&mut self, timeline: &mut Timeline, fresh: Vec<i64>, disk: Vec<i64>)
        requires
            old(self).well_formed(),
        ensures
            final(self).well_formed(),
            final(timeline)@.valid(),
            final(timeline)@ == cycled(old(timeline)@, fresh@),
            final(self)@ == (RadarModel {
                cache: old(self)@.cache.restrict(fresh@.to_set()),
                disk: disk@.to_set(),
                ..old(self)@
            }),
    {
        let ghost m0 = self@;
        let fallback: usize = if fresh.len() > 0 {
            fresh.len() - 1
        } else {
            0
        };
        timeline.history_hours = next_history_hours(timeline.history_hours);
        self.cache.retain_in(&fresh);
        assert(self@.cache =~= m0.cache.restrict(fresh@.to_set()));
        timeline.adopt(fresh, fallback);
        self.disk_frames = disk;
    }

    /// Advance to the next history depth and rebuild the timeline as of now.
    pub fn cycle_history(&mut self, timeline: &mut Timeline, disk: Vec<i64>)
        requires
            old(self).well_formed(),
        ensures
            final(self).well_formed(),
            final(timeline)@.valid(),
            exists|now: i64|
                0 <= now && final(timeline)@ == cycled(
                    old(timeline)@,
                    #[trigger] slots_at(now as int, hours_after(old(timeline)@.hours)),
                ),
            final(self)@ == (RadarModel {
                cache: old(self)@.cache.restrict(final(timeline)@.slots.to_set()),
                disk: disk@.to_set(),
                ..old(self)@
            }),
    {
        let fresh = compute_frame_list(next_history_hours(timeline.history_hours));
        self.cycle_history_to(timeline, fresh, disk);
    }
}

/// The timeline at the next history depth, with `fresh` for its slots: the view
/// stays on its slot, or goes to the oldest.
pub open spec fn cycled(m: TimelineModel, fresh: Seq<i64>) -> TimelineModel {
    TimelineModel {
        hours: hours_after(m.hours),
        ..m.adopting(
            fresh,
            if fresh.len() > 0 {
                fresh.len() - 1
            } else {
                0
            },
        )
    }
}

/// What is written of the time of the frame on screen: the time on the clock,
/// or the number of seconds where the calendar does not reach so far.
pub fn time_label(time: Option<i64>, clock: Option<String>) -> (s: String)
    ensures
        s@ == match time {
            Some(t) => match clock {
                Some(c) => c@,
                None => signed(t as int),
            },
            None => "no frame"@,
        },
{
    match time {
        Some(t) => match clock {
            Some(c) => c,
            None => signed_text(t),
        },
        None => "no frame".to_string(),
    }
}

impl Radar {
    /// What is written of the time of the frame on screen. What the clock says
    /// depends on the machine's time zone.
    pub fn frame_label(&self) -> (s: String)
        ensures
            self.frame is None ==> s@ == "no frame"@,
            self.frame matches Some(f) ==> !on_calendar(f.time) ==> s@ == signed(f.time as int),
            self.frame matches Some(f) ==> on_calendar(f.time) ==> is_clock_text(s@),
    {
        match &self.frame {
            Some(f) => time_label(Some(f.time), format_local(f.time, CLOCK)),
            None => time_label(None, None),
        }
    }

    /// Show a frame: beside the tiles on screen where there are some.
    pub fn merge_radar_frame(&mut self, frame: RadarFrame)
        requires
            old(self).well_formed(),
        ensures
            final(self).well_formed(),
            final(self)@ == (RadarModel {
                frame: Some(
                    match old(self)@.frame {
                        Some(shown) => shown.merged(frame@),
                        None => frame@,
                    },
                ),
                ..old(self)@
            }),
    {
        match &mut self.frame {
            Some(shown) => {
                shown.merge_tiles(frame);
            },
            None => {
                self.frame = Some(frame);
            },
        }
    }
}

/// Frames kept in memory never outgrow the cap, and what is dropped was no
/// nearer to the playhead than what stays.
pub proof fn pruning_bounds_the_cache(cache: Map<i64, FrameModel>, keys: Seq<i64>, t: TimelineModel)
    requires
        keys.no_duplicates(),
        cache.dom() == keys.to_set(),
    ensures
        pruned(cache, keys, t).dom().len() <= FRAME_CACHE_MAX,
        pruned(cache, keys, t).submap_of(cache),
{
    let cap = FRAME_CACHE_MAX as nat;
    let gone = evicted(keys, t.slots, t.index, cap);
    let left = pruned(cache, keys, t);
    keys.unique_seq_to_set();
    if keys.len() <= cap {
        assert(left =~= cache);
    } else {
        let ranks = keep_ranks(keys, t.slots, t.index);
        let order = rank_order(ranks, ranks.len());
        rank_order_is_stable_and_complete(ranks, ranks.len());
        assert(gone.no_duplicates()) by {
            assert forall|i: int, j: int| 0 <= i < j < gone.len() implies gone[i] != gone[j] by {
                assert(order.contains(order[cap + i]));
                assert(order.contains(order[cap + j]));
                assert(gone[i] == keys[order[cap + i]]);
                assert(gone[j] == keys[order[cap + j]]);
            }
        }
        assert forall|x: i64| #[trigger] gone.contains(x) implies keys.contains(x) by {
            let i = choose|i: int| 0 <= i < gone.len() && gone[i] == x;
            assert(order.contains(order[cap + i]));
            assert(gone[i] == keys[order[cap + i]]);
        }
        gone.unique_seq_to_set();
        assert(left.dom() =~= keys.to_set().difference(gone.to_set()));
        assert(keys.to_set().intersect(gone.to_set()) =~= gone.to_set());
        vstd::set_lib::lemma_set_intersect_union_lens(keys.to_set(), gone.to_set());
        vstd::set_lib::lemma_set_difference_len(keys.to_set(), gone.to_set());
        assert(gone.len() == keys.len() - cap);
    }
}

/// A slot that failed is not asked for again before its wait is over.
pub proof fn failed_slots_wait(m: RadarModel, t: TimelineModel, ts: i64, at: u64, now: u64)
    requires
        at <= now <= CLOCK_LIMIT,
        now < at + retry_wait(m.failed(ts, at).failures[ts].attempts),
    ensures
        !m.failed(ts, at).wants(t, ts, now),
{
}

/// A slot that failed often enough is never asked for again.
pub proof fn exhausted_slots_are_left_alone(m: RadarModel, t: TimelineModel, ts: i64, now: u64)
    requires
        m.failures.dom().contains(ts),
        m.failures[ts].attempts >= FRAME_RETRY_GIVE_UP,
    ensures
        !m.wants(t, ts, now),
{
}

/// A preload pass asks for a slot only if it is on the timeline, not on
/// screen, not in memory and not waiting after a failure.
pub proof fn preload_lists_wanted_slots(m: RadarModel, t: TimelineModel, now: u64, i: int)
    requires
        0 <= i < m.preload_list(t, now).len(),
    ensures
        m.preload_list(t, now).len() <= PRELOAD_WINDOW,
        t.slots.contains(m.preload_list(t, now)[i]),
        m.wants(t, m.preload_list(t, now)[i], now),
{
    let places = m.wanted(t, now, t.slots.len());
    let slots = places.map_values(|i: int| t.slots[i]);
    let ranks = places.map_values(|i: int| around(i, t.index, t.slots.len() as int) as usize);
    let order = rank_order(ranks, ranks.len());
    rank_order_is_stable_and_complete(ranks, ranks.len());
    assert(order.contains(order[i]));
    let p = places[order[i]];
    lemma_wanted(m, t, now, t.slots.len(), order[i]);
    assert(m.preload_list(t, now)[i] == t.slots[p]);
}

proof fn lemma_wanted(m: RadarModel, t: TimelineModel, now: u64, n: nat, k: int)
    requires
        n <= t.slots.len(),
        0 <= k < m.wanted(t, now, n).len(),
    ensures
        0 <= m.wanted(t, now, n)[k] < n,
        m.wants(t, t.slots[m.wanted(t, now, n)[k]], now),
    decreases n,
{
    if n > 0 {
        let before = m.wanted(t, now, (n - 1) as nat);
        if k < before.len() {
            lemma_wanted(m, t, now, (n - 1) as nat, k);
        }
    }
}

impl RadarModel {
    /// The radar after tiles came in, one after another.
    pub open spec fn with_tiles(self, tiles: Seq<TileModel>) -> RadarModel
        decreases tiles.len(),
    {
        if tiles.len() == 0 {
            self
        } else {
            self.with_tiles(tiles.drop_last()).tile_arrived(tiles.last())
        }
    }
}

/// Whether a tile is the first of its coordinate among those that came in.
pub open spec fn came_first(tiles: Seq<TileModel>, tile: TileModel) -> bool {
    exists|i: int|
        0 <= i < tiles.len() && #[trigger] tiles[i] == tile && forall|j: int|
            0 <= j < i ==> (#[trigger] tiles[j]).coord != tile.coord
}

/// The first tile of another slot than that on screen starts a frame of its own:
/// it is shown as of the slot that was asked for, and nothing of the earlier slot
/// stays.
pub proof fn a_new_slot_starts_a_new_frame(m: RadarModel, tile: TileModel, slot: i64)
    requires
        m.requested == Some(slot),
        m.frame_ts != Some(slot),
    ensures
        m.tile_arrived(tile).frame_ts == Some(slot),
        m.tile_arrived(tile).frame is Some,
        m.tile_arrived(tile).frame->0.time == slot,
        m.tile_arrived(tile).frame->0.tiles == seq![tile],
        m.tile_arrived(tile).frame->0.target_zoom == tile.coord.z,
        m.tile_arrived(tile).requested == m.requested,
        m.tile_arrived(tile).cache == m.cache,
        m.tile_arrived(tile).refreshing == m.refreshing,
{
}

/// Once a tile of another slot came in, every tile on screen came in for the slot
/// on screen, whatever was there before.
pub proof fn tiles_on_screen_came_for_their_slot(m: RadarModel, tiles: Seq<TileModel>, slot: i64)
    requires
        m.requested == Some(slot),
        m.frame_ts != Some(slot),
        tiles.len() > 0,
    ensures
        m.with_tiles(tiles).frame_ts == Some(slot),
        m.with_tiles(tiles).requested == Some(slot),
        m.with_tiles(tiles).cache == m.cache,
        m.with_tiles(tiles).frame is Some,
        m.with_tiles(tiles).frame->0.time == slot,
        forall|t: TileModel| #[trigger]
            m.with_tiles(tiles).frame->0.tiles.contains(t) ==> tiles.contains(t),
    decreases tiles.len(),
{
    let before = m.with_tiles(tiles.drop_last());
    let after = m.with_tiles(tiles);
    let last = tiles.last();
    assert(tiles[tiles.len() - 1] == last);
    if tiles.len() > 1 {
        tiles_on_screen_came_for_their_slot(m, tiles.drop_last(), slot);
        let shown = before.frame->0;
        assert forall|t: TileModel| #[trigger]
            after.frame->0.tiles.contains(t) implies tiles.contains(t) by {
            let kept = shown.kept_tiles(last.coord.z);
            if t != last {
                let k = choose|k: int|
                    0 <= k < after.frame->0.tiles.len() && after.frame->0.tiles[k] == t;
                assert(kept[k] == t);
                lemma_kept(shown, last.coord.z, k);
                assert(tiles.drop_last().contains(t));
                let i = choose|i: int|
                    0 <= i < tiles.drop_last().len() && tiles.drop_last()[i] == t;
                assert(tiles[i] == t);
            }
        }
    } else {
        assert(before == m);
        assert forall|t: TileModel| #[trigger]
            after.frame->0.tiles.contains(t) implies tiles.contains(t) by {
            assert(after.frame->0.tiles == seq![last]);
        }
    }
}

proof fn lemma_kept(frame: FrameModel, z: u8, k: int)
    requires
        0 <= k < frame.kept_tiles(z).len(),
    ensures
        frame.tiles.contains(frame.kept_tiles(z)[k]),
{
    if frame.target_zoom != z {
        let pred = |t: TileModel| t.coord.z == z;
        let kept = frame.tiles.filter(pred);
        assert(kept.contains(kept[k]));
        frame.tiles.lemma_filter_contains_rev(pred, kept[k]);
    }
}

/// While the tiles of a slot come in at one zoom, the frame shows of each
/// coordinate the tile that came first, once, and nothing else.
pub proof fn a_slot_shows_what_came_for_it(
    m: RadarModel,
    tiles: Seq<TileModel>,
    slot: i64,
    z: u8,
)
    requires
        m.requested == Some(slot),
        m.frame_ts != Some(slot),
        tiles.len() > 0,
        forall|i: int| 0 <= i < tiles.len() ==> (#[trigger] tiles[i]).coord.z == z,
    ensures
        m.with_tiles(tiles).frame is Some,
        m.with_tiles(tiles).frame->0.time == slot,
        m.with_tiles(tiles).frame->0.target_zoom == z,
        forall|t: TileModel|
            (#[trigger] m.with_tiles(tiles).frame->0.tiles.contains(t)) <==> came_first(tiles, t),
        distinct_coords(m.with_tiles(tiles).frame->0.tiles),
    decreases tiles.len(),
{
    let early = tiles.drop_last();
    let before = m.with_tiles(early);
    let after = m.with_tiles(tiles);
    let last = tiles.last();
    assert(tiles[tiles.len() - 1] == last);
    tiles_on_screen_came_for_their_slot(m, tiles, slot);
    if tiles.len() > 1 {
        assert forall|i: int| 0 <= i < early.len() implies (#[trigger] early[i]).coord.z == z by {
            assert(tiles[i] == early[i]);
        }
        a_slot_shows_what_came_for_it(m, early, slot, z);
        tiles_on_screen_came_for_their_slot(m, early, slot);
        let was = before.frame->0.tiles;
        let is = after.frame->0.tiles;
        assert(is == with_tile(was, last));
        assert forall|t: TileModel| (#[trigger] is.contains(t)) <==> came_first(tiles, t) by {
            lemma_came_first(tiles, t);
            assert(was.contains(t) <==> came_first(early, t));
            lemma_coordinate_came(early, last.coord);
            if has_tile(was, last.coord) {
                let k = choose|k: int| 0 <= k < was.len() && (#[trigger] was[k]).coord
                    == last.coord;
                assert(was.contains(was[k]));
                assert(came_first(early, was[k]));
            } else {
                assert(is.contains(t) <==> was.contains(t) || t == last) by {
                    if was.contains(t) {
                        let k = choose|k: int| 0 <= k < was.len() && was[k] == t;
                        assert(is[k] == t);
                    }
                    assert(is[was.len() as int] == last);
                }
                if exists|i: int| 0 <= i < early.len() && (#[trigger] early[i]).coord
                    == last.coord {
                    let first = choose|f: TileModel| #[trigger]
                        came_first(early, f) && f.coord == last.coord;
                    assert(was.contains(first));
                    let k = choose|k: int| 0 <= k < was.len() && was[k] == first;
                    assert(was[k].coord == last.coord);
                }
            }
        }
    } else {
        assert(before == m);
        let is = after.frame->0.tiles;
        assert(is == seq![last]);
        assert forall|t: TileModel| (#[trigger] is.contains(t)) <==> came_first(tiles, t) by {
            if is.contains(t) {
                assert(tiles[0] == t);
            }
            if came_first(tiles, t) {
                assert(is[0] == t);
            }
        }
    }
}

/// A tile came first among all where it came first before the last one, or is
/// that one and brings a new coordinate.
proof fn lemma_came_first(tiles: Seq<TileModel>, t: TileModel)
    requires
        tiles.len() > 0,
    ensures
        came_first(tiles, t) <==> came_first(tiles.drop_last(), t) || (t == tiles.last()
            && forall|i: int|
            0 <= i < tiles.drop_last().len() ==> (#[trigger] tiles.drop_last()[i]).coord
                != t.coord),
{
    let early = tiles.drop_last();
    let n = early.len() as int;
    if came_first(tiles, t) {
        let i = choose|i: int|
            0 <= i < tiles.len() && #[trigger] tiles[i] == t && forall|j: int|
                0 <= j < i ==> (#[trigger] tiles[j]).coord != t.coord;
        assert forall|j: int| 0 <= j < i && j < n implies (#[trigger] early[j]).coord
            != t.coord by {
            assert(tiles[j] == early[j]);
        }
        if i < n {
            assert(early[i] == t);
        }
    }
    if came_first(early, t) {
        let i = choose|i: int|
            0 <= i < early.len() && #[trigger] early[i] == t && forall|j: int|
                0 <= j < i ==> (#[trigger] early[j]).coord != t.coord;
        assert forall|j: int| 0 <= j < i implies (#[trigger] tiles[j]).coord != t.coord by {
            assert(tiles[j] == early[j]);
        }
        assert(tiles[i] == t);
    } else if t == tiles.last() && forall|i: int|
        0 <= i < n ==> (#[trigger] early[i]).coord != t.coord {
        assert forall|j: int| 0 <= j < n implies (#[trigger] tiles[j]).coord != t.coord by {
            assert(tiles[j] == early[j]);
        }
        assert(tiles[n] == t);
    }
}

/// Of every coordinate that came in, a tile came first.
proof fn lemma_coordinate_came(tiles: Seq<TileModel>, coord: TileCoord)
    ensures
        (exists|i: int| 0 <= i < tiles.len() && (#[trigger] tiles[i]).coord == coord) <==> exists|
            f: TileModel,
        | #[trigger]
            came_first(tiles, f) && f.coord == coord,
    decreases tiles.len(),
{
    if exists|f: TileModel| #[trigger] came_first(tiles, f) && f.coord == coord {
        let f = choose|f: TileModel| #[trigger] came_first(tiles, f) && f.coord == coord;
        let i = choose|i: int|
            0 <= i < tiles.len() && #[trigger] tiles[i] == f && forall|j: int|
                0 <= j < i ==> (#[trigger] tiles[j]).coord != f.coord;
        assert(tiles[i].coord == coord);
    }
    if exists|i: int| 0 <= i < tiles.len() && (#[trigger] tiles[i]).coord == coord {
        let i = choose|i: int| 0 <= i < tiles.len() && (#[trigger] tiles[i]).coord == coord;
        let early = tiles.drop_last();
        lemma_coordinate_came(early, coord);
        if exists|k: int| 0 <= k < early.len() && (#[trigger] early[k]).coord == coord {
            let f = choose|f: TileModel| #[trigger] came_first(early, f) && f.coord == coord;
            lemma_came_first(tiles, f);
            assert(came_first(tiles, f));
        } else {
            if i < early.len() {
                assert(early[i].coord == coord);
            }
            assert(tiles[i] == tiles.last());
            lemma_came_first(tiles, tiles.last());
            assert(came_first(tiles, tiles.last()));
        }
    }
}

/// When a fetch that sent its tiles one by one is complete, the frame on screen
/// holds what came for it and lies in view, under the time that the fetch found;
/// what is kept in memory under that time is the same frame, and what is kept
/// under other times stays as it is or leaves.
pub proof fn a_finished_slot_keeps_what_came_for_it(
    m: RadarModel,
    tiles: Seq<TileModel>,
    slot: i64,
    t: TimelineModel,
    frame: FrameModel,
    bounds: Bounds,
    z: u8,
)
    requires
        m.requested == Some(slot),
        m.frame_ts != Some(slot),
        tiles.len() > 0,
        forall|i: int| 0 <= i < tiles.len() ==> (#[trigger] tiles[i]).coord.z == z,
        frame.tiles.len() == 0,
    ensures
        ({
            let done = m.with_tiles(tiles).ready(t, frame, bounds, z);
            &&& done.frame_ts == Some(slot)
            &&& !done.refreshing
            &&& done.frame is Some
            &&& done.frame->0.time == frame.time
            &&& done.frame->0.path == frame.path
            &&& forall|x: TileModel|
                (#[trigger] done.frame->0.tiles.contains(x)) <==> came_first(tiles, x)
                    && bounds.touches_tile(x.coord)
            &&& forall|ts: i64| #[trigger]
                done.cache.dom().contains(ts) ==> (ts == frame.time && done.cache[ts]
                    == done.frame->0) || (m.cache.dom().contains(ts) && done.cache[ts]
                    == m.cache[ts])
        }),
{
    a_slot_shows_what_came_for_it(m, tiles, slot, z);
    tiles_on_screen_came_for_their_slot(m, tiles, slot);
    let was = m.with_tiles(tiles).frame->0.tiles;
    let done = m.with_tiles(tiles).ready(t, frame, bounds, z);
    let pred = |x: TileModel| bounds.touches_tile(x.coord);
    let is = done.frame->0.tiles;
    assert(is == was.filter(pred));
    assert forall|x: TileModel| (#[trigger] is.contains(x)) <==> came_first(tiles, x)
        && bounds.touches_tile(x.coord) by {
        assert(was.contains(x) <==> came_first(tiles, x));
        if is.contains(x) {
            let k = choose|k: int| 0 <= k < is.len() && is[k] == x;
            was.lemma_filter_contains_rev(pred, x);
            was.lemma_filter_pred(pred, k);
            assert(pred(is[k]));
        }
        if was.contains(x) && bounds.touches_tile(x.coord) {
            let k = choose|k: int| 0 <= k < was.len() && was[k] == x;
            assert(pred(was[k]));
            was.lemma_filter_contains(pred, k);
        }
    }
}

/// A preload pass takes every slot that it may ask for, and where those are too
/// many the nearest to the playhead round the ring; it goes through them from the
/// nearest to the farthest.
pub proof fn preload_takes_the_nearest(m: RadarModel, t: TimelineModel, now: u64, a: int)
    requires
        t.valid(),
        t.slots.no_duplicates(),
        t.slots.len() <= usize::MAX,
        0 <= a < t.slots.len(),
        m.wants(t, t.slots[a], now),
    ensures
        ({
            let list = m.preload_list(t, now);
            let len = t.slots.len() as int;
            &&& list.contains(t.slots[a]) || list.len() == PRELOAD_WINDOW
            &&& !list.contains(t.slots[a]) ==> forall|b: int|
                0 <= b < len && list.contains(#[trigger] t.slots[b]) ==> around(b, t.index, len)
                    <= around(a, t.index, len)
            &&& forall|i: int, j: int, p: int, q: int|
                0 <= i < j < list.len() && 0 <= p < len && 0 <= q < len && #[trigger] t.slots[p]
                    == #[trigger] list[i] && #[trigger] t.slots[q] == #[trigger] list[j] ==> around(
                    p,
                    t.index,
                    len,
                ) <= around(q, t.index, len)
        }),
{
    let list = m.preload_list(t, now);
    let len = t.slots.len() as int;
    let places = m.wanted(t, now, t.slots.len());
    let slots = places.map_values(|i: int| t.slots[i]);
    let ranks = places.map_values(|i: int| around(i, t.index, len) as usize);
    let order = rank_order(ranks, ranks.len());
    let all = by_rank(slots, ranks);
    rank_order_is_stable_and_complete(ranks, ranks.len());
    lemma_all_wanted(m, t, now, t.slots.len(), a);
    let ka = choose|k: int| 0 <= k < places.len() && places[k] == a;
    assert(order.contains(ka));
    let kk = choose|k: int| 0 <= k < order.len() && order[k] == ka;
    assert forall|k: int| 0 <= k < all.len() implies 0 <= #[trigger] order[k] < places.len()
        && 0 <= places[order[k]] < len && all[k] == t.slots[places[order[k]]] && ranks[order[k]]
        == around(places[order[k]], t.index, len) by {
        assert(order.contains(order[k]));
        lemma_wanted(m, t, now, t.slots.len(), order[k]);
    }
    assert(all[kk] == t.slots[a]);
    assert(all.len() == places.len());
    assert forall|k: int| 0 <= k < list.len() implies #[trigger] list[k] == all[k] by {}
    if kk < list.len() {
        assert(list[kk] == t.slots[a]);
    } else {
        assert forall|b: int|
            0 <= b < len && list.contains(#[trigger] t.slots[b]) implies around(b, t.index, len)
            <= around(a, t.index, len) by {
            let k = choose|k: int| 0 <= k < list.len() && list[k] == t.slots[b];
            assert(t.slots[places[order[k]]] == t.slots[b]);
            assert(precedes(ranks, order[k], order[kk]));
        }
    }
    assert forall|i: int, j: int, p: int, q: int|
        0 <= i < j < list.len() && 0 <= p < len && 0 <= q < len && #[trigger] t.slots[p]
            == #[trigger] list[i] && #[trigger] t.slots[q] == #[trigger] list[j] implies around(
        p,
        t.index,
        len,
    ) <= around(q, t.index, len) by {
        assert(precedes(ranks, order[i], order[j]));
        assert(t.slots[places[order[i]]] == t.slots[p]);
        assert(t.slots[places[order[j]]] == t.slots[q]);
    }
}

proof fn lemma_all_wanted(m: RadarModel, t: TimelineModel, now: u64, n: nat, a: int)
    requires
        0 <= a < n <= t.slots.len(),
        m.wants(t, t.slots[a], now),
    ensures
        m.wanted(t, now, n).contains(a),
    decreases n,
{
    let s = m.wanted(t, now, n);
    let before = m.wanted(t, now, (n - 1) as nat);
    if a < n - 1 {
        lemma_all_wanted(m, t, now, (n - 1) as nat, a);
        let k = choose|k: int| 0 <= k < before.len() && before[k] == a;
        assert(s[k] == a);
    } else {
        assert(s[before.len() as int] == a);
    }
}

/// A slot that failed fewer times than the limit is asked for again once its wait
/// is over.
pub proof fn failed_slots_get_another_try(
    m: RadarModel,
    t: TimelineModel,
    ts: i64,
    at: u64,
    now: u64,
)
    requires
        at <= now <= CLOCK_LIMIT,
        m.failures.dom().contains(ts) ==> m.failures[ts].attempts < FRAME_RETRY_GIVE_UP - 1,
        now >= at + retry_wait(m.failed(ts, at).failures[ts].attempts),
        !m.cache.dom().contains(ts),
        t.current() != Some(ts),
    ensures
        m.failed(ts, at).wants(t, ts, now),
        m.failed(ts, at).failures[ts].attempts == 1 + if m.failures.dom().contains(ts) {
            m.failures[ts].attempts as int
        } else {
            0
        },
{
    assert(retry_wait(m.failed(ts, at).failures[ts].attempts) <= 90_000_000_000);
}

impl RadarModel {
    /// Whether every frame in memory is kept under the time that it holds.
    pub open spec fn keyed_by_time(self) -> bool {
        forall|ts: i64| #[trigger]
            self.cache.dom().contains(ts) ==> self.cache[ts].time == ts
    }
}

/// Frames are kept under the time that they hold, whatever comes in, and a frame
/// that is shown from memory is that of the slot on screen.
pub proof fn frames_are_kept_under_their_time(
    m: RadarModel,
    t: TimelineModel,
    tile: TileModel,
    frame: FrameModel,
    result: PreloadModel,
    shown: bool,
    bounds: Bounds,
    z: u8,
    now: u64,
)
    requires
        m.keyed_by_time(),
    ensures
        RadarModel::at_first().keyed_by_time(),
        m.tile_arrived(tile).keyed_by_time(),
        m.ready(t, frame, bounds, z).keyed_by_time(),
        m.preloaded(t, result, z, now).keyed_by_time(),
        m.refresh_asked(t, shown, bounds, z, now).keyed_by_time(),
        m.fetch_failed(now).keyed_by_time(),
        shown && t.current() is Some && m.at_tile_zoom(z).can_serve(t.current()->0, bounds, z)
            ==> (m.refresh_asked(t, shown, bounds, z, now).frame matches Some(f) && Some(f.time)
            == t.current()),
{
}

/// The view always asks for the slot on screen: what it shows, awaits or fetches
/// is of that slot.
pub proof fn the_view_asks_for_the_slot_on_screen(
    m: RadarModel,
    t: TimelineModel,
    bounds: Bounds,
    z: u8,
    now: u64,
)
    requires
        t.current() is Some,
    ensures
        m.refresh_asked(t, true, bounds, z, now).requested == t.current(),
        m.refresh_plan(t, true, bounds, z, now).fetch matches Some((_, ts)) ==> Some(ts)
            == t.current(),
        m.refresh_plan(t, true, bounds, z, now).fetch is Some ==> m.refresh_asked(
            t,
            true,
            bounds,
            z,
            now,
        ).refreshing,
        m.refresh_plan(t, true, bounds, z, now).fetch is None ==> m.refresh_asked(
            t,
            true,
            bounds,
            z,
            now,
        ).frame_ts == t.current() || m.requested == t.current(),
        m.refresh_asked(t, false, bounds, z, now) == m,
{
}

/// A slot that loaded is no longer held to have failed.
pub proof fn loaded_slots_have_not_failed(
    m: RadarModel,
    t: TimelineModel,
    frame: FrameModel,
    bounds: Bounds,
    z: u8,
)
    ensures
        m.requested matches Some(ts) ==> !m.ready(t, frame, bounds, z).failures.dom().contains(ts),
        m.ready(t, frame, bounds, z).frame is Some,
        !m.ready(t, frame, bounds, z).failures.dom().contains(
            m.ready(t, frame, bounds, z).frame->0.time,
        ),
        !m.ready(t, frame, bounds, z).refreshing,
{
}

/// A preloaded frame of a slot on the timeline is at hand, on disk and in memory,
/// and one of another zoom or of a slot that left is ignored.
pub proof fn preloaded_frames_are_at_hand(
    m: RadarModel,
    t: TimelineModel,
    f: FrameModel,
    slot: i64,
    tile_zoom: u8,
    z: u8,
    now: u64,
)
    ensures
        ({
            let r = PreloadModel { timestamp: slot, tile_zoom, frame: Some(f) };
            &&& tile_zoom == z && t.slots.contains(slot) && f.time == slot ==> {
                let done = m.preloaded(t, r, z, now);
                &&& done.cache == m.cache.insert(slot, f)
                &&& done.disk == m.disk.insert(slot)
                &&& !done.failures.dom().contains(slot)
            }
            &&& tile_zoom != z || !t.slots.contains(slot) ==> m.preloaded(t, r, z, now) == m
        }),
{
}

/// Where a slot turns out to be the frame of another time, it leaves the timeline
/// and the memory, and the frame is kept under the time that it holds, where that
/// is on the timeline.
pub proof fn phantom_slots_leave(
    m: RadarModel,
    t: TimelineModel,
    slot: i64,
    frame: FrameModel,
    bounds: Bounds,
    z: u8,
)
    requires
        m.requested == Some(slot),
        m.frame is None,
        frame.time != slot,
        t.slots.contains(slot),
    ensures
        !m.ready_timeline(t, frame).slots.contains(slot),
        forall|ts: i64|
            ts != slot ==> (#[trigger] m.ready_timeline(t, frame).slots.contains(ts)
                <==> t.slots.contains(ts)),
        !m.ready(t, frame, bounds, z).cache.dom().contains(slot),
        z == m.cache_zoom && t.slots.contains(frame.time) && m.ready(
            t,
            frame,
            bounds,
            z,
        ).cache.dom().contains(frame.time) ==> m.ready(t, frame, bounds, z).cache[frame.time]
            == frame.trimmed(bounds),
{
    crate::slots::lemma_others(t.slots, slot);
}

/// A frame that came whole is shown, trimmed to the view, and kept in memory where
/// there is room.
pub proof fn whole_frames_are_shown(
    m: RadarModel,
    t: TimelineModel,
    slot: i64,
    frame: FrameModel,
    bounds: Bounds,
    z: u8,
)
    requires
        m.requested == Some(slot),
        frame.time == slot,
        frame.tiles.len() > 0,
        m.frame matches Some(f) ==> f.time != slot,
    ensures
        m.ready(t, frame, bounds, z).frame == Some(frame.trimmed(bounds)),
        m.ready(t, frame, bounds, z).frame_ts == Some(slot),
        m.ready_timeline(t, frame) == t,
        z == m.cache_zoom && t.slots.contains(slot) && m.cache.insert(
            slot,
            frame.trimmed(bounds),
        ).dom().len() <= REFRESH_CACHE_MAX ==> m.ready(t, frame, bounds, z).cache == m.cache.insert(
            slot,
            frame.trimmed(bounds),
        ),
{
}

/// A preload pass goes over its list and is under way while there is something on
/// it; a drag puts it off, and a layer that is not drawn needs none.
pub proof fn preload_passes_follow_their_list(m: RadarModel, t: TimelineModel, now: u64)
    ensures
        m.dragging ==> m.preload_started(t, true, now) == m && m.preload_plan(t, true, now).preload
            == Seq::<i64>::empty(),
        !m.dragging && t.slots.len() > 0 ==> {
            &&& m.preload_plan(t, true, now).preload == m.preload_list(t, now)
            &&& m.preload_plan(t, true, now).abort_preload == m.preloading
            &&& m.preload_started(t, true, now).preloading <==> m.preload_list(t, now).len() > 0
        },
        !m.dragging ==> !m.preload_started(t, false, now).preloading && m.preload_plan(
            t,
            false,
            now,
        ).preload == Seq::<i64>::empty(),
{
}

/// A slot that is neither in memory nor asked for is fetched, and the layer says
/// that it loads; one that is in memory for all of the view is shown at once.
pub proof fn slots_are_fetched_or_shown(
    m: RadarModel,
    t: TimelineModel,
    bounds: Bounds,
    z: u8,
    now: u64,
    ts: i64,
)
    requires
        t.current() == Some(ts),
        z == m.cache_zoom,
    ensures
        !m.cache.dom().contains(ts) && m.requested != Some(ts) ==> {
            &&& m.refresh_plan(t, true, bounds, z, now).fetch == Some((next_id(m.refresh_id), ts))
            &&& m.refresh_plan(t, true, bounds, z, now).abort_refresh == m.refreshing
            &&& m.refresh_status(t, true, bounds, z) == Some(LayerStatus::Loading)
            &&& m.refresh_asked(t, true, bounds, z, now).refreshing
        },
        m.cache.dom().contains(ts) && m.cache[ts].covers(bounds, z) ==> {
            &&& m.refresh_plan(t, true, bounds, z, now).fetch is None
            &&& m.refresh_status(t, true, bounds, z) == Some(LayerStatus::Ready)
            &&& m.refresh_asked(t, true, bounds, z, now).frame == Some(m.cache[ts].trimmed(bounds))
            &&& m.refresh_asked(t, true, bounds, z, now).frame_ts == Some(ts)
        },
        !m.cache.dom().contains(ts) && m.requested == Some(ts) && m.refreshing ==> m.refresh_plan(
            t,
            true,
            bounds,
            z,
            now,
        ).fetch is None,
{
}

/// Frames that were built at another zoom are dropped.
pub proof fn frames_of_another_zoom_are_dropped(m: RadarModel, z: u8)
    ensures
        m.at_tile_zoom(z).cache_zoom == z,
        z == m.cache_zoom ==> m.at_tile_zoom(z) == m,
        z != m.cache_zoom ==> m.at_tile_zoom(z).cache == Map::<i64, FrameModel>::empty(),
{
}

/// Where too many frames are in memory the earliest gives way, and no other.
pub proof fn the_earliest_frame_gives_way(
    cache: Map<i64, FrameModel>,
    ts: i64,
    frame: FrameModel,
    gone: i64,
    kept: i64,
)
    requires
        cache.dom().finite(),
        cache.insert(ts, frame).dom().contains(gone),
        !remembered(cache, ts, frame).dom().contains(gone),
        remembered(cache, ts, frame).dom().contains(kept),
    ensures
        gone < kept,
        remembered(cache, ts, frame) == cache.insert(ts, frame).remove(gone),
{
    let all = cache.insert(ts, frame);
    lemma_some_earliest(all.dom(), gone);
    let chosen = choose|x: i64| is_earliest(all.dom(), x);
    assert(is_earliest(all.dom(), chosen));
    assert(gone == chosen);
}

proof fn lemma_some_earliest(slots: Set<i64>, x: i64)
    requires
        slots.finite(),
        slots.contains(x),
    ensures
        exists|e: i64| is_earliest(slots, e),
    decreases slots.len(),
{
    let rest = slots.remove(x);
    if exists|y: i64| rest.contains(y) {
        let y = choose|y: i64| rest.contains(y);
        lemma_some_earliest(rest, y);
        let e = choose|e: i64| is_earliest(rest, e);
        assert(is_earliest(rest, e));
        if e < x {
            assert(is_earliest(slots, e));
        } else {
            assert(is_earliest(slots, x));
        }
    } else {
        assert forall|y: i64| slots.contains(y) implies y == x by {
            if y != x {
                assert(rest.contains(y));
            }
        }
        assert(is_earliest(slots, x));
    }
}

/// A slot that turned out not to be published is not missed: live mode stays on
/// the newest slot, and otherwise the time on screen stays, or the time that was
/// found takes its place.
pub proof fn viewers_do_not_miss_phantoms(t: TimelineModel, req: i64, actual: i64)
    requires
        t.valid(),
        t.slots.contains(req),
    ensures
        t.mode == PlaybackMode::Live ==> RadarModel::resolved_timeline(t, req, actual).index == 0,
        t.mode != PlaybackMode::Live && t.current() is Some && t.current() != Some(req)
            ==> RadarModel::resolved_timeline(t, req, actual).current() == t.current(),
        t.mode != PlaybackMode::Live && t.current() == Some(req) && actual != req
            && t.slots.contains(actual) ==> RadarModel::resolved_timeline(t, req, actual).current()
            == Some(actual),
        RadarModel::resolved_timeline(t, req, actual).mode == t.mode,
        !RadarModel::resolved_timeline(t, req, actual).slots.contains(req),
{
    if t.current() is Some {
        phantoms_leave_alone(t.slots, t.index, req, actual, t.mode == PlaybackMode::Live);
        if t.slots[t.index] != req {
            viewer_keeps_the_time_on_screen(t.slots, t.index, req, actual);
        }
    }
}

/// The slot on screen that failed is tried again once its wait is over, unless it
/// is being fetched, came by another way or failed too often.
pub proof fn the_slot_on_screen_is_tried_again(m: RadarModel, t: TimelineModel, ts: i64, now: u64)
    requires
        t.current() == Some(ts),
    ensures
        m.shown_due(t, now) <==> {
            &&& m.failures.dom().contains(ts)
            &&& m.failures[ts].next_at <= now
            &&& m.failures[ts].attempts < 8
            &&& !m.refreshing
            &&& !m.cache.dom().contains(ts)
        },
        m.shown_due(t, now) ==> m.some_due(now),
{
}

/// Waits for another try start at four seconds and double up to a minute and a
/// half.
pub proof fn waits_for_another_try_double(attempts: u32)
    ensures
        retry_wait(1) == 4_000_000_000,
        retry_wait(2) == 8_000_000_000,
        attempts < u32::MAX ==> retry_wait((attempts + 1) as u32) == at_most(
            2 * retry_wait(attempts),
            90_000_000_000,
        ),
{
    vstd::arithmetic::power2::lemma2_to64();
    if attempts < u32::MAX {
        vstd::arithmetic::power2::lemma_pow2_unfold((attempts + 1) as nat);
    }
}

/// At the next depth of history the view stays on its slot where that is still
/// there, and goes to the oldest one where it is not; live mode stays on the
/// newest.
pub proof fn the_view_keeps_its_slot_through_history(m: TimelineModel, fresh: Seq<i64>)
    requires
        fresh.len() > 0,
    ensures
        cycled(m, fresh).slots == fresh,
        cycled(m, fresh).hours == hours_after(m.hours),
        m.mode == PlaybackMode::Live ==> cycled(m, fresh).current() == Some(fresh[0]),
        m.mode != PlaybackMode::Live && m.current() is Some && fresh.contains(m.current()->0)
            ==> cycled(m, fresh).current() == m.current(),
        m.mode != PlaybackMode::Live && m.current() is Some && !fresh.contains(m.current()->0)
            ==> cycled(m, fresh).current() == Some(fresh.last()),
{
    if m.mode != PlaybackMode::Live && m.current() is Some {
        let ts = m.current()->0;
        if fresh.contains(ts) {
            adopting_keeps_the_slot_on_screen(m, fresh, fresh.len() - 1);
        } else {
            lemma_not_placed(fresh, ts, 0);
        }
    }
}

proof fn lemma_not_placed(slots: Seq<i64>, ts: i64, from: int)
    requires
        0 <= from,
        !slots.contains(ts),
    ensures
        first_place(slots, ts, from) is None,
    decreases slots.len() - from,
{
    if from < slots.len() {
        lemma_not_placed(slots, ts, from + 1);
    }
}

/// A result of a fetch that was superseded never reaches the screen: every
/// fetch gets an id of its own.
pub proof fn new_fetches_get_new_ids(
    m: RadarModel,
    t: TimelineModel,
    shown: bool,
    bounds: Bounds,
    z: u8,
    now: u64,
)
    ensures
        m.refresh_plan(t, shown, bounds, z, now).fetch is Some ==> {
            &&& m.refresh_asked(t, shown, bounds, z, now).refresh_id
                == (m.refresh_plan(t, shown, bounds, z, now).fetch->0).0
            &&& m.refresh_asked(t, shown, bounds, z, now).refresh_id != m.refresh_id
        },
        m.refresh_plan(t, shown, bounds, z, now).fetch is None ==> m.refresh_asked(
            t,
            shown,
            bounds,
            z,
            now,
        ).refresh_id == m.refresh_id,
{
}

fn earliest_slot(cache: &SlotMap<RadarFrame>) -> (ts: i64)
    requires
        cache.well_formed(),
        cache.slots().len() > 0,
    ensures
        is_earliest(cache.map().dom(), ts),
{
    let keys = cache.keys();
    let mut best: i64 = keys[0];
    let mut i: usize = 1;
    while i < keys.len()
        invariant
            1 <= i <= keys.len(),
            keys@ == cache.slots(),
            keys@.contains(best),
            forall|j: int| 0 <= j < i ==> best <= #[trigger] keys@[j],
        decreases keys.len() - i,
    {
        if keys[i] < best {
            best = keys[i];
            assert(keys@[i as int] == best);
        }
        i = i + 1;
    }
    proof {
        cache.lemma_slots();
        assert forall|x: i64| #[trigger] cache.map().dom().contains(x) implies best <= x by {
            assert(cache.slots().contains(x));
        }
    }
    best
}

proof fn lemma_list_ignores_preloading(
    a: RadarModel,
    b: RadarModel,
    t: TimelineModel,
    now: u64,
    n: nat,
)
    requires
        a.cache == b.cache,
        a.failures == b.failures,
    ensures
        a.wanted(t, now, n) == b.wanted(t, now, n),
    decreases n,
{
    if n > 0 {
        lemma_list_ignores_preloading(a, b, t, now, (n - 1) as nat);
        assert(a.wants(t, t.slots[n - 1], now) == b.wants(t, t.slots[n - 1], now));
    }
}

/// The bit patterns of 0.9375 and 0.95.
pub const FIFTEEN_SIXTEENTHS_BITS: u64 = 0x3fee_0000_0000_0000;

pub const NINETEEN_TWENTIETHS_BITS: u64 = 0x3fee_6666_6666_6666;

/// How far a frame looks after so many tiles: each three halve what is left,
/// up to 0.95.
pub open spec fn tile_fraction(n: nat) -> u64 {
    let threes = n / 3;
    if threes == 0 {
        0
    } else if threes == 1 {
        HALF_BITS
    } else if threes == 2 {
        THREE_QUARTERS_BITS
    } else if threes == 3 {
        SEVEN_EIGHTHS_BITS
    } else if threes == 4 {
        FIFTEEN_SIXTEENTHS_BITS
    } else {
        NINETEEN_TWENTIETHS_BITS
    }
}

/// What the overlay is told when the fetch of a frame starts.
pub fn frame_start(ts: i64, task_id: u64) -> (m: TaskMsg)
    ensures
        announces(m, task_id, "frame "@ + signed(ts as int), TaskKind::RadarFrame),
{
    TaskMsg::Start {
        id: task_id,
        label: "frame ".to_string().concat(signed_text(ts).as_str()),
        kind: TaskKind::RadarFrame,
    }
}

/// What the overlay is told after the `n`-th tile of a frame.
pub fn tile_progress(n: u32, task_id: u64) -> (m: TaskMsg)
    ensures
        m matches TaskMsg::Progress { id, action, fraction } && id == task_id && action@ == digits(
            n as nat,
        ) + " tiles"@ && fraction == Some(Double { bits: tile_fraction(n as nat) }),
{
    let bits: u64 = match n / 3 {
        0 => 0,
        1 => HALF_BITS,
        2 => THREE_QUARTERS_BITS,
        3 => SEVEN_EIGHTHS_BITS,
        4 => FIFTEEN_SIXTEENTHS_BITS,
        _ => NINETEEN_TWENTIETHS_BITS,
    };
    TaskMsg::Progress {
        id: task_id,
        action: number_text(n as u64).concat(" tiles"),
        fraction: Some(Double::from_bits(bits)),
    }
}

} // verus!
