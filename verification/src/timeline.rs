//! The radar timeline: which slots there are and which one is on screen.
//!
//! Slots are listed newest first. Playback runs from the oldest to the newest
//! and wraps, so the timeline is a ring.

use std::time::{SystemTime, UNIX_EPOCH};

use vstd::prelude::*;
use vstd::string::*;

use crate::order::{by_rank, rank_order, rank_order_is_stable_and_complete, sorted_indices};
use crate::slots::{contains_slot, lemma_others, others};

verus! {

/// Seconds between two published slots.
pub const SLOT_SECS: i64 = 300;

/// Default history depth in hours.
pub const DEFAULT_HISTORY_HOURS: u8 = 3;

/// The history depths that can be chosen, in hours.
pub open spec fn history_options() -> Seq<u8> {
    seq![3u8, 6u8, 12u8, 24u8]
}

/// Whether a history depth is one of those offered.
pub fn is_history_option(hours: u8) -> (r: bool)
    ensures
        r == history_options().contains(hours),
{
    let r = hours == 3 || hours == 6 || hours == 12 || hours == 24;
    proof {
        assert(history_options()[0] == 3);
        assert(history_options()[1] == 6);
        assert(history_options()[2] == 12);
        assert(history_options()[3] == 24);
    }
    r
}

/// Number of slots that span `hours` of history.
pub fn frames_for_hours(hours: u8) -> (n: usize)
    ensures
        n == hours * 12,
{
    (hours as usize) * 3600 / 300
}

pub open spec fn hours_after(hours: u8) -> u8 {
    if hours == 3 {
        6
    } else if hours == 6 {
        12
    } else if hours == 12 {
        24
    } else {
        3
    }
}

/// Next depth in the cycle, wrapping back to the shortest; a depth that is not
/// offered gives the default.
pub fn next_history_hours(hours: u8) -> (h: u8)
    ensures
        h == hours_after(hours),
{
    match hours {
        3 => 6,
        6 => 12,
        12 => 24,
        _ => DEFAULT_HISTORY_HOURS,
    }
}

/// The cycle of depths stays within the options and comes round.
pub proof fn history_cycle_comes_round(hours: u8)
    ensures
        history_options().contains(hours_after(hours)),
        history_options().contains(hours) ==> hours_after(
            hours_after(hours_after(hours_after(hours))),
        ) == hours,
{
    assert(history_options()[0] == 3);
    assert(history_options()[1] == 6);
    assert(history_options()[2] == 12);
    assert(history_options()[3] == 24);
}

/// The expected slots at time `now`, newest first. The slot that `now` falls
/// into is still being scanned, so the list starts one before it.
pub open spec fn slots_at(now: int, hours: u8) -> Seq<i64> {
    Seq::new((hours * 12) as nat, |i: int| (now - now % 300 - 300 - i * 300) as i64)
}

/// `SystemTime::now`, as whole seconds since the epoch; zero on a clock set
/// before it. Nothing is promised of the time it returns.
#[verifier::external_body]
pub(crate) fn now_unix_secs() -> (t: u64) {
    SystemTime::now().duration_since(UNIX_EPOCH).map(|d| d.as_secs()).unwrap_or(0)
}

/// The expected slots at a given time.
pub fn frame_list_at(now: i64, hours: u8) -> (frames: Vec<i64>)
    requires
        0 <= now,
    ensures
        frames@ == slots_at(now as int, hours),
{
    let latest: i64 = now - now % SLOT_SECS;
    let n: i64 = hours as i64 * 12;
    let mut frames: Vec<i64> = Vec::new();
    let mut i: i64 = 0;
    while i < n
        invariant
            0 <= i <= n,
            n == hours * 12,
            n <= 3060,
            0 <= now,
            latest == now - now % 300,
            0 <= latest,
            frames@ == slots_at(now as int, hours).take(i as int),
        decreases n - i,
    {
        frames.push(latest - SLOT_SECS - i * SLOT_SECS);
        assert(frames@ =~= slots_at(now as int, hours).take(i + 1));
        i = i + 1;
    }
    assert(slots_at(now as int, hours).take(n as int) =~= slots_at(now as int, hours));
    frames
}

/// The slots expected now, spanning `hours` of history, newest first.
pub fn compute_frame_list(hours: u8) -> (frames: Vec<i64>)
    ensures
        exists|now: i64| 0 <= now && frames@ == #[trigger] slots_at(now as int, hours),
{
    let t: u64 = now_unix_secs();
    let now: i64 = if t <= i64::MAX as u64 {
        t as i64
    } else {
        i64::MAX
    };
    frame_list_at(now, hours)
}

/// Slots lie five minutes apart on five-minute marks, newest first, none of
/// them in the future, and a deeper history extends a shallower one.
pub proof fn slots_are_evenly_spaced(now: int, hours: u8, more: u8)
    requires
        3600 * 256 <= now <= i64::MAX,
        hours <= more,
    ensures
        slots_at(now, hours).len() == hours * 12,
        forall|i: int|
            0 <= i < slots_at(now, hours).len() ==> {
                &&& (#[trigger] slots_at(now, hours)[i]) % 300 == 0
                &&& slots_at(now, hours)[i] <= now - 300
            },
        forall|i: int, j: int|
            0 <= i <= j < slots_at(now, hours).len() ==> (#[trigger] slots_at(now, hours)[i]) - (
            #[trigger] slots_at(now, hours)[j]) == (j - i) * 300,
        slots_at(now, more).take(hours * 12) == slots_at(now, hours),
{
    assert(slots_at(now, more).take(hours * 12) =~= slots_at(now, hours));
}

pub open spec fn distance(a: int, b: int) -> int {
    if a >= b {
        a - b
    } else {
        b - a
    }
}

/// Steps between two places on a ring of `len`, the short way round.
pub open spec fn around(index: int, playhead: int, len: int) -> int {
    let raw = distance(index, playhead);
    if len == 0 {
        0
    } else if raw <= len - raw {
        raw
    } else {
        len - raw
    }
}

pub fn ring_distance(index: usize, playhead: usize, len: usize) -> (d: usize)
    requires
        len > 0 ==> distance(index as int, playhead as int) <= len,
    ensures
        d == around(index as int, playhead as int, len as int),
{
    if len == 0 {
        return 0;
    }
    let raw: usize = if index >= playhead {
        index - playhead
    } else {
        playhead - index
    };
    if raw <= len - raw {
        raw
    } else {
        len - raw
    }
}

/// Which way a step moves the playhead.
#[derive(Debug, Clone, Copy, PartialEq, Eq, Structural)]
pub enum Step {
    Older,
    Newer,
}

/// The place one step away on a ring of `len`; a place past the end counts as
/// the end.
pub open spec fn stepped(current: int, len: int, dir: Step) -> Option<int> {
    let oldest = len - 1;
    if len <= 0 {
        None
    } else {
        match dir {
            Step::Older => Some(if current >= oldest { 0 } else { current + 1 }),
            Step::Newer => Some(
                if current == 0 {
                    oldest
                } else if current - 1 <= oldest {
                    current - 1
                } else {
                    oldest
                },
            ),
        }
    }
}

pub fn stepped_index(current: usize, len: usize, dir: Step) -> (r: Option<usize>)
    ensures
        match r {
            Some(i) => stepped(current as int, len as int, dir) == Some(i as int),
            None => stepped(current as int, len as int, dir) is None,
        },
{
    if len == 0 {
        return None;
    }
    let oldest: usize = len - 1;
    Some(
        match dir {
            Step::Older => if current >= oldest {
                0
            } else {
                current + 1
            },
            Step::Newer => if current == 0 {
                oldest
            } else if current - 1 <= oldest {
                current - 1
            } else {
                oldest
            },
        },
    )
}

/// Place `i` after `n` steps.
pub open spec fn steps(i: int, len: int, dir: Step, n: nat) -> int
    decreases n,
{
    if n == 0 {
        i
    } else {
        stepped(steps(i, len, dir, (n - 1) as nat), len, dir)->0
    }
}

/// A step and its opposite undo each other, neighbours on the ring are one
/// step apart, and a full lap of steps comes back.
pub proof fn stepping_goes_round_the_ring(i: int, len: int, dir: Step)
    requires
        0 <= i < len,
    ensures
        stepped(stepped(i, len, Step::Older)->0, len, Step::Newer) == Some(i),
        stepped(stepped(i, len, Step::Newer)->0, len, Step::Older) == Some(i),
        len >= 2 ==> around(i, stepped(i, len, dir)->0, len) == 1,
        steps(i, len, dir, len as nat) == i,
{
    lemma_steps(i, len, dir, len as nat);
}

proof fn lemma_steps(i: int, len: int, dir: Step, n: nat)
    requires
        0 <= i < len,
        n <= len,
    ensures
        steps(i, len, dir, n) == match dir {
            Step::Older => if i + n < len {
                i + n
            } else {
                i + n - len
            },
            Step::Newer => if i - n >= 0 {
                i - n
            } else {
                i - n + len
            },
        },
    decreases n,
{
    if n > 0 {
        lemma_steps(i, len, dir, (n - 1) as nat);
    }
}

/// The last place of `ts` among `slots`.
pub open spec fn last_place(slots: Seq<i64>, ts: i64) -> Option<int>
    decreases slots.len(),
{
    if slots.len() == 0 {
        None
    } else if slots.last() == ts {
        Some(slots.len() - 1)
    } else {
        last_place(slots.drop_last(), ts)
    }
}

/// The first place of `ts` among `slots`, from place `from` on.
pub open spec fn first_place(slots: Seq<i64>, ts: i64, from: int) -> Option<int>
    decreases slots.len() - from,
{
    if from < 0 || from >= slots.len() {
        None
    } else if slots[from] == ts {
        Some(from)
    } else {
        first_place(slots, ts, from + 1)
    }
}

/// What a cached frame is ranked by: how far it is from the playhead, or
/// farther than anything where it is off the timeline.
pub open spec fn keep_rank(ts: i64, slots: Seq<i64>, playhead: int) -> usize {
    match last_place(slots, ts) {
        Some(i) => around(i, playhead, slots.len() as int) as usize,
        None => usize::MAX,
    }
}

pub open spec fn keep_ranks(cached: Seq<i64>, slots: Seq<i64>, playhead: int) -> Seq<usize> {
    cached.map_values(|ts: i64| keep_rank(ts, slots, playhead))
}

/// The cached frames to drop: all but the `cap` nearest to the playhead.
pub open spec fn evicted(cached: Seq<i64>, slots: Seq<i64>, playhead: int, cap: nat) -> Seq<i64> {
    if cached.len() <= cap {
        Seq::empty()
    } else {
        by_rank(cached, keep_ranks(cached, slots, playhead)).skip(cap as int)
    }
}

proof fn lemma_last_place(slots: Seq<i64>, ts: i64)
    ensures
        match last_place(slots, ts) {
            Some(i) => 0 <= i < slots.len() && slots[i] == ts,
            None => !slots.contains(ts),
        },
    decreases slots.len(),
{
    if slots.len() > 0 && slots.last() != ts {
        let t = slots.drop_last();
        lemma_last_place(t, ts);
        if slots.contains(ts) {
            let i = choose|i: int| 0 <= i < slots.len() && slots[i] == ts;
            assert(t[i] == ts);
        }
    }
}

fn find_last(slots: &[i64], ts: i64) -> (r: Option<usize>)
    ensures
        match r {
            Some(i) => last_place(slots@, ts) == Some(i as int) && i < slots.len(),
            None => last_place(slots@, ts) is None,
        },
{
    let mut n: usize = slots.len();
    assert(slots@.take(n as int) =~= slots@);
    while n > 0
        invariant
            n <= slots.len(),
            last_place(slots@, ts) == last_place(slots@.take(n as int), ts),
        decreases n,
    {
        assert(slots@.take(n as int).drop_last() =~= slots@.take(n - 1));
        if slots[n - 1] == ts {
            return Some(n - 1);
        }
        n = n - 1;
    }
    None
}

fn find_first(slots: &[i64], ts: i64) -> (r: Option<usize>)
    ensures
        match r {
            Some(i) => first_place(slots@, ts, 0) == Some(i as int) && i < slots.len(),
            None => first_place(slots@, ts, 0) is None,
        },
{
    let mut i: usize = 0;
    while i < slots.len()
        invariant
            i <= slots.len(),
            first_place(slots@, ts, 0) == first_place(slots@, ts, i as int),
        decreases slots.len() - i,
    {
        if slots[i] == ts {
            return Some(i);
        }
        i = i + 1;
    }
    None
}

/// Whether every cached frame that is on the timeline lies at most one lap from
/// the playhead.
pub open spec fn within_a_lap(cached: Seq<i64>, slots: Seq<i64>, playhead: int) -> bool {
    forall|i: int|
        0 <= i < cached.len() ==> (last_place(slots, #[trigger] cached[i]) matches Some(p)
            ==> distance(p, playhead) <= slots.len())
}

/// A playhead that is not past the end lies within a lap of every frame.
pub proof fn the_timeline_is_one_lap(cached: Seq<i64>, slots: Seq<i64>, playhead: int)
    requires
        0 <= playhead <= slots.len(),
    ensures
        within_a_lap(cached, slots, playhead),
{
    assert forall|i: int| 0 <= i < cached.len() implies (last_place(
        slots,
        #[trigger] cached[i],
    ) matches Some(p) ==> distance(p, playhead) <= slots.len()) by {
        lemma_last_place(slots, cached[i]);
    }
}

/// Pick which cached frames to drop so that at most `cap` remain: the frame on
/// screen goes last, those off the timeline go first.
pub fn frames_to_evict(
    cached: &[i64],
    timestamps: &[i64],
    frame_index: usize,
    cap: usize,
) -> (r: Vec<i64>)
    requires
        cached.len() > cap ==> within_a_lap(cached@, timestamps@, frame_index as int),
    ensures
        r@ == evicted(cached@, timestamps@, frame_index as int, cap as nat),
{
    let mut r: Vec<i64> = Vec::new();
    if cached.len() <= cap {
        return r;
    }
    let mut ranks: Vec<usize> = Vec::new();
    let ghost want = keep_ranks(cached@, timestamps@, frame_index as int);
    let mut i: usize = 0;
    while i < cached.len()
        invariant
            i <= cached.len(),
            within_a_lap(cached@, timestamps@, frame_index as int),
            want == keep_ranks(cached@, timestamps@, frame_index as int),
            ranks@ == want.take(i as int),
        decreases cached.len() - i,
    {
        let rank: usize = match find_last(timestamps, cached[i]) {
            Some(p) => ring_distance(p, frame_index, timestamps.len()),
            None => usize::MAX,
        };
        ranks.push(rank);
        assert(ranks@ =~= want.take(i + 1));
        i = i + 1;
    }
    assert(ranks@ =~= want);
    let order = sorted_indices(&ranks);
    let ghost sorted = by_rank(cached@, want);
    let ghost ints = order@.map_values(|i: usize| i as int);
    let mut k: usize = cap;
    while k < order.len()
        invariant
            cap <= k <= order.len(),
            order.len() == cached.len(),
            ints == order@.map_values(|i: usize| i as int),
            ints == rank_order(want, want.len()),
            sorted == by_rank(cached@, want),
            forall|j: int| 0 <= j < order.len() ==> (#[trigger] order@[j]) < cached.len(),
            r@ == sorted.skip(cap as int).take(k - cap),
        decreases order.len() - k,
    {
        assert(ints[k as int] == order@[k as int] as int);
        r.push(cached[order[k]]);
        assert(r@ =~= sorted.skip(cap as int).take(k + 1 - cap));
        k = k + 1;
    }
    assert(r@ =~= sorted.skip(cap as int));
    r
}

/// Eviction leaves at most `cap` frames, never keeps a frame that is farther
/// from the playhead than one it drops, and does not drop the frame on screen
/// while it keeps any.
pub proof fn eviction_keeps_the_nearest(
    cached: Seq<i64>,
    slots: Seq<i64>,
    playhead: int,
    cap: nat,
)
    requires
        cached.len() > cap,
    ensures
        ({
            let all = by_rank(cached, keep_ranks(cached, slots, playhead));
            let dropped = evicted(cached, slots, playhead, cap);
            let kept = all.take(cap as int);
            &&& dropped.len() == cached.len() - cap
            &&& kept + dropped == all
            &&& forall|i: int, j: int|
                0 <= i < kept.len() && 0 <= j < dropped.len() ==> keep_rank(
                    #[trigger] kept[i],
                    slots,
                    playhead,
                ) <= keep_rank(#[trigger] dropped[j], slots, playhead)
        }),
{
    let ranks = keep_ranks(cached, slots, playhead);
    let order = rank_order(ranks, ranks.len());
    let all = by_rank(cached, ranks);
    rank_order_is_stable_and_complete(ranks, ranks.len());
    let kept = all.take(cap as int);
    let dropped = all.skip(cap as int);
    assert(kept + dropped =~= all);
    assert forall|i: int, j: int| 0 <= i < kept.len() && 0 <= j < dropped.len() implies keep_rank(
        #[trigger] kept[i],
        slots,
        playhead,
    ) <= keep_rank(#[trigger] dropped[j], slots, playhead) by {
        assert(order.contains(order[i]));
        assert(order.contains(order[cap + j]));
        assert(kept[i] == cached[order[i]]);
        assert(dropped[j] == cached[order[cap + j]]);
        assert(ranks[order[i]] == keep_rank(kept[i], slots, playhead));
        assert(ranks[order[cap + j]] == keep_rank(dropped[j], slots, playhead));
    }
}

/// The frame on screen has the lowest rank of all.
pub proof fn frame_on_screen_ranks_first(slots: Seq<i64>, playhead: int, ts: i64)
    requires
        0 <= playhead < slots.len(),
        slots.no_duplicates(),
        slots.len() <= usize::MAX,
    ensures
        keep_rank(slots[playhead], slots, playhead) == 0,
        ts != slots[playhead] ==> keep_rank(ts, slots, playhead) > 0,
{
    lemma_last_place(slots, slots[playhead]);
    lemma_last_place(slots, ts);
}

/// A timeline without the slot `req`, and the place that stays on screen: the
/// newest in live mode, otherwise that of the time that was on screen, or of
/// the resolved time where that was `req`.
pub open spec fn without_phantom(
    slots: Seq<i64>,
    index: int,
    req: i64,
    resolved: i64,
    live: bool,
) -> Option<(Seq<i64>, int)> {
    if !slots.contains(req) {
        None
    } else {
        let rest = others(slots, req);
        let target = if 0 <= index < slots.len() && slots[index] != req {
            slots[index]
        } else {
            resolved
        };
        Some(
            (
                rest,
                if live {
                    0
                } else {
                    match first_place(rest, target, 0) {
                        Some(i) => i,
                        None => 0,
                    }
                },
            ),
        )
    }
}

pub fn timeline_without_phantom(
    timestamps: &[i64],
    frame_index: usize,
    req_ts: i64,
    resolved_ts: i64,
    live: bool,
) -> (r: Option<(Vec<i64>, usize)>)
    ensures
        match r {
            Some((rest, index)) => without_phantom(
                timestamps@,
                frame_index as int,
                req_ts,
                resolved_ts,
                live,
            ) == Some((rest@, index as int)),
            None => without_phantom(
                timestamps@,
                frame_index as int,
                req_ts,
                resolved_ts,
                live,
            ) is None,
        },
        r matches Some((rest, index)) ==> index == 0 || index < rest.len(),
{
    if !contains_slot(timestamps, req_ts) {
        return None;
    }
    let mut rest: Vec<i64> = Vec::new();
    let mut i: usize = 0;
    proof {
        reveal(Seq::filter);
        assert(timestamps@.take(0) =~= Seq::<i64>::empty());
    }
    while i < timestamps.len()
        invariant
            i <= timestamps.len(),
            rest@ == others(timestamps@.take(i as int), req_ts),
        decreases timestamps.len() - i,
    {
        proof {
            reveal(Seq::filter);
            assert(timestamps@.take(i + 1).drop_last() =~= timestamps@.take(i as int));
        }
        if timestamps[i] != req_ts {
            rest.push(timestamps[i]);
        }
        i = i + 1;
    }
    assert(timestamps@.take(i as int) =~= timestamps@);
    let index: usize = if live {
        0
    } else {
        let target: i64 = if frame_index < timestamps.len() && timestamps[frame_index] != req_ts {
            timestamps[frame_index]
        } else {
            resolved_ts
        };
        match find_first(&rest, target) {
            Some(p) => p,
            None => 0,
        }
    };
    Some((rest, index))
}

proof fn lemma_first_place(slots: Seq<i64>, ts: i64, from: int)
    requires
        0 <= from,
    ensures
        match first_place(slots, ts, from) {
            Some(i) => from <= i < slots.len() && slots[i] == ts,
            None => forall|i: int| from <= i < slots.len() ==> slots[i] != ts,
        },
    decreases slots.len() - from,
{
    if from < slots.len() && slots[from] != ts {
        lemma_first_place(slots, ts, from + 1);
    }
}

/// Removing a phantom slot keeps the viewer on the time that was on screen.
pub proof fn viewer_keeps_the_time_on_screen(
    slots: Seq<i64>,
    index: int,
    req: i64,
    resolved: i64,
)
    requires
        slots.contains(req),
        0 <= index < slots.len(),
        slots[index] != req,
    ensures
        ({
            let (rest, i) = without_phantom(slots, index, req, resolved, false)->0;
            0 <= i < rest.len() && rest[i] == slots[index] && !rest.contains(req)
        }),
{
    let rest = others(slots, req);
    lemma_others(slots, req);
    lemma_first_place(rest, slots[index], 0);
    assert(rest.contains(slots[index]));
}

/// On a timeline that is newest first, a step to older shows an older slot and a
/// step to newer a newer one; past an end it goes on at the other.
pub proof fn steps_go_the_way_they_say(slots: Seq<i64>, i: int)
    requires
        0 <= i < slots.len(),
        forall|a: int, b: int| 0 <= a < b < slots.len() ==> slots[a] > slots[b],
    ensures
        stepped(i, slots.len() as int, Step::Older) matches Some(k) && 0 <= k < slots.len() && if i
            < slots.len() - 1 {
            slots[k] < slots[i] && !(exists|j: int|
                0 <= j < slots.len() && slots[k] < #[trigger] slots[j] < slots[i])
        } else {
            k == 0
        },
        stepped(i, slots.len() as int, Step::Newer) matches Some(k) && 0 <= k < slots.len() && if i
            > 0 {
            slots[k] > slots[i] && !(exists|j: int|
                0 <= j < slots.len() && slots[i] < #[trigger] slots[j] < slots[k])
        } else {
            k == slots.len() - 1
        },
{
}

/// The distance on the ring is the fewest steps that lead from one place to the
/// other.
pub proof fn ring_distance_is_the_shortest_way(i: int, playhead: int, len: int)
    requires
        0 <= i < len,
        0 <= playhead < len,
    ensures
        0 <= around(i, playhead, len),
        steps(i, len, Step::Older, around(i, playhead, len) as nat) == playhead || steps(
            i,
            len,
            Step::Newer,
            around(i, playhead, len) as nat,
        ) == playhead,
        forall|dir: Step, n: nat|
            n <= len && #[trigger] steps(i, len, dir, n) == playhead ==> n >= around(
                i,
                playhead,
                len,
            ),
{
    let d = around(i, playhead, len) as nat;
    lemma_steps(i, len, Step::Older, d);
    lemma_steps(i, len, Step::Newer, d);
    assert forall|dir: Step, n: nat|
        n <= len && #[trigger] steps(i, len, dir, n) == playhead implies n >= around(
        i,
        playhead,
        len,
    ) by {
        lemma_steps(i, len, dir, n);
    }
}

/// The newest expected slot is the last one that is over: the slot that `now`
/// falls into is still being scanned, and the one before it is the newest.
pub proof fn the_newest_slot_is_just_over(now: int, hours: u8)
    requires
        0 <= now <= i64::MAX,
        hours > 0,
    ensures
        slots_at(now, hours)[0] % 300 == 0,
        slots_at(now, hours)[0] + 300 <= now < slots_at(now, hours)[0] + 600,
{
}

/// A frame that is off the timeline is dropped before any other.
pub proof fn frames_off_the_timeline_rank_last(slots: Seq<i64>, playhead: int, ts: i64)
    requires
        !slots.contains(ts),
    ensures
        keep_rank(ts, slots, playhead) == usize::MAX,
{
    lemma_last_place(slots, ts);
}

/// A phantom slot leaves alone, and a viewer who was on it is taken to the slot
/// that it turned out to be; live mode goes to the newest.
pub proof fn phantoms_leave_alone(slots: Seq<i64>, index: int, req: i64, resolved: i64, live: bool)
    requires
        slots.contains(req),
        0 <= index < slots.len(),
    ensures
        without_phantom(slots, index, req, resolved, live) is Some,
        ({
            let (rest, i) = without_phantom(slots, index, req, resolved, live)->0;
            &&& !rest.contains(req)
            &&& forall|ts: i64| ts != req ==> (#[trigger] rest.contains(ts) <==> slots.contains(ts))
            &&& live ==> i == 0
            &&& !live && slots[index] == req && resolved != req && slots.contains(resolved)
                ==> 0 <= i < rest.len() && rest[i] == resolved
        }),
{
    let rest = others(slots, req);
    lemma_others(slots, req);
    lemma_first_place(rest, resolved, 0);
    if slots.contains(resolved) && resolved != req {
        assert(rest.contains(resolved));
    }
}

#[derive(Debug, Clone, Copy, PartialEq, Eq, Structural)]
pub enum PlaybackMode {
    /// Shows the newest frame and follows new data.
    Live,
    /// Holds on one frame.
    Paused,
    /// Steps through history on its own.
    Playing,
}

#[derive(Debug, Clone, Copy, PartialEq, Eq, Structural)]
pub enum PlaybackSpeed {
    Half,
    Normal,
    Double,
    Quad,
}

impl PlaybackSpeed {
    pub fn interval_ms(self) -> (ms: u64)
        ensures
            ms == match self {
                PlaybackSpeed::Half => 2000u64,
                PlaybackSpeed::Normal => 1000u64,
                PlaybackSpeed::Double => 500u64,
                PlaybackSpeed::Quad => 250u64,
            },
    {
        match self {
            PlaybackSpeed::Half => 2000,
            PlaybackSpeed::Normal => 1000,
            PlaybackSpeed::Double => 500,
            PlaybackSpeed::Quad => 250,
        }
    }

    pub fn label(self) -> (s: &'static str)
        ensures
            s@ == match self {
                PlaybackSpeed::Half => "\u{bd}\u{d7}"@,
                PlaybackSpeed::Normal => "1\u{d7}"@,
                PlaybackSpeed::Double => "2\u{d7}"@,
                PlaybackSpeed::Quad => "4\u{d7}"@,
            },
    {
        match self {
            PlaybackSpeed::Half => "\u{bd}\u{d7}",
            PlaybackSpeed::Normal => "1\u{d7}",
            PlaybackSpeed::Double => "2\u{d7}",
            PlaybackSpeed::Quad => "4\u{d7}",
        }
    }

    pub open spec fn up(self) -> PlaybackSpeed {
        match self {
            PlaybackSpeed::Half => PlaybackSpeed::Normal,
            PlaybackSpeed::Normal => PlaybackSpeed::Double,
            PlaybackSpeed::Double => PlaybackSpeed::Quad,
            PlaybackSpeed::Quad => PlaybackSpeed::Quad,
        }
    }

    pub open spec fn down(self) -> PlaybackSpeed {
        match self {
            PlaybackSpeed::Half => PlaybackSpeed::Half,
            PlaybackSpeed::Normal => PlaybackSpeed::Half,
            PlaybackSpeed::Double => PlaybackSpeed::Normal,
            PlaybackSpeed::Quad => PlaybackSpeed::Double,
        }
    }

    pub fn faster(self) -> (s: PlaybackSpeed)
        ensures
            s == self.up(),
    {
        match self {
            PlaybackSpeed::Half => PlaybackSpeed::Normal,
            PlaybackSpeed::Normal => PlaybackSpeed::Double,
            PlaybackSpeed::Double => PlaybackSpeed::Quad,
            PlaybackSpeed::Quad => PlaybackSpeed::Quad,
        }
    }

    pub fn slower(self) -> (s: PlaybackSpeed)
        ensures
            s == self.down(),
    {
        match self {
            PlaybackSpeed::Half => PlaybackSpeed::Half,
            PlaybackSpeed::Normal => PlaybackSpeed::Half,
            PlaybackSpeed::Double => PlaybackSpeed::Normal,
            PlaybackSpeed::Quad => PlaybackSpeed::Double,
        }
    }
}

/// Away from the ends of the scale faster and slower undo each other.
pub proof fn faster_and_slower_undo_each_other(s: PlaybackSpeed)
    ensures
        s != PlaybackSpeed::Quad ==> s.up().down() == s,
        s != PlaybackSpeed::Half ==> s.down().up() == s,
{
}

/// The timeline and the place on screen.
#[derive(Debug)]
pub struct Timeline {
    pub timestamps: Vec<i64>,
    pub frame_index: usize,
    pub playback_mode: PlaybackMode,
    pub playback_speed: PlaybackSpeed,
    pub history_hours: u8,
}

#[verifier::ext_equal]
pub struct TimelineModel {
    pub slots: Seq<i64>,
    pub index: int,
    pub mode: PlaybackMode,
    pub speed: PlaybackSpeed,
    pub hours: u8,
}

impl View for Timeline {
    type V = TimelineModel;

    open spec fn view(&self) -> TimelineModel {
        TimelineModel {
            slots: self.timestamps@,
            index: self.frame_index as int,
            mode: self.playback_mode,
            speed: self.playback_speed,
            hours: self.history_hours,
        }
    }
}

impl TimelineModel {
    /// No slots yet, following the newest.
    pub open spec fn at_first() -> TimelineModel {
        TimelineModel {
            slots: Seq::empty(),
            index: 0,
            mode: PlaybackMode::Live,
            speed: PlaybackSpeed::Normal,
            hours: DEFAULT_HISTORY_HOURS,
        }
    }

    /// The place on screen is on the timeline, or the first of an empty one.
    pub open spec fn valid(self) -> bool {
        0 <= self.index && (self.index == 0 || self.index < self.slots.len())
    }

    /// The slot on screen.
    pub open spec fn current(self) -> Option<i64> {
        if 0 <= self.index < self.slots.len() {
            Some(self.slots[self.index])
        } else {
            None
        }
    }

    /// The same view on a new list of slots: live mode goes to the newest, any
    /// other stays on its slot, or goes to `fallback` where that is gone.
    pub open spec fn adopting(self, slots: Seq<i64>, fallback: int) -> TimelineModel {
        TimelineModel {
            slots,
            index: if self.mode == PlaybackMode::Live {
                0
            } else {
                match self.current() {
                    Some(ts) => match first_place(slots, ts, 0) {
                        Some(i) => i,
                        None => fallback,
                    },
                    None => fallback,
                }
            },
            ..self
        }
    }

    /// One step by hand: on the newest frame live mode begins again.
    pub open spec fn moved(self, dir: Step) -> TimelineModel {
        match stepped(self.index, self.slots.len() as int, dir) {
            Some(i) => TimelineModel {
                index: i,
                mode: if i == 0 {
                    PlaybackMode::Live
                } else {
                    PlaybackMode::Paused
                },
                ..self
            },
            None => self,
        }
    }

    /// One step of playback, toward newer, from the newest to the oldest.
    pub open spec fn played(self) -> TimelineModel {
        if self.slots.len() == 0 {
            self
        } else if self.index == 0 {
            TimelineModel { index: self.slots.len() - 1, ..self }
        } else {
            TimelineModel { index: self.index - 1, ..self }
        }
    }

    pub open spec fn play_toggled(self) -> TimelineModel {
        TimelineModel {
            mode: match self.mode {
                PlaybackMode::Playing => if self.index == 0 {
                    PlaybackMode::Live
                } else {
                    PlaybackMode::Paused
                },
                _ => PlaybackMode::Playing,
            },
            ..self
        }
    }

    pub open spec fn live(self) -> TimelineModel {
        TimelineModel { index: 0, mode: PlaybackMode::Live, ..self }
    }
}

impl Timeline {
    /// An empty timeline in live mode.
    pub fn new() -> (t: Timeline)
        ensures
            t@ == TimelineModel::at_first(),
    {
        Timeline {
            timestamps: Vec::new(),
            frame_index: 0,
            playback_mode: PlaybackMode::Live,
            playback_speed: PlaybackSpeed::Normal,
            history_hours: DEFAULT_HISTORY_HOURS,
        }
    }

    pub fn current(&self) -> (r: Option<i64>)
        ensures
            r == self@.current(),
    {
        if self.frame_index < self.timestamps.len() {
            Some(self.timestamps[self.frame_index])
        } else {
            None
        }
    }

    /// Take over a new list of slots.
    pub fn adopt(&mut self, slots: Vec<i64>, fallback: usize)
        requires
            fallback == 0 || fallback < slots.len(),
        ensures
            final(self)@ == old(self)@.adopting(slots@, fallback as int),
            final(self)@.valid(),
    {
        let index: usize = if self.playback_mode == PlaybackMode::Live {
            0
        } else {
            match self.current() {
                Some(ts) => match find_first(&slots, ts) {
                    Some(i) => i,
                    None => fallback,
                },
                None => fallback,
            }
        };
        self.timestamps = slots;
        self.frame_index = index;
    }

    /// Take over a newer list of slots; a list that starts with the same slot
    /// is not newer.
    pub fn adopt_newer(&mut self, fresh: Vec<i64>) -> (changed: bool)
        requires
            old(self)@.valid(),
        ensures
            changed == !same_newest(old(self)@.slots, fresh@),
            final(self)@ == if changed {
                old(self)@.adopting(fresh@, 0)
            } else {
                old(self)@
            },
            final(self)@.valid(),
    {
        let same = if fresh.len() == 0 {
            self.timestamps.len() == 0
        } else {
            self.timestamps.len() > 0 && self.timestamps[0] == fresh[0]
        };
        if same {
            return false;
        }
        self.adopt(fresh, 0);
        true
    }

    /// Take over the slots expected now where a new one has opened.
    pub fn poll_radar_timestamps(&mut self) -> (changed: bool)
        requires
            old(self)@.valid(),
        ensures
            final(self)@.valid(),
            exists|now: i64|
                0 <= now && {
                    let fresh = #[trigger] slots_at(now as int, old(self)@.hours);
                    &&& changed == !same_newest(old(self)@.slots, fresh)
                    &&& final(self)@ == if changed {
                        old(self)@.adopting(fresh, 0)
                    } else {
                        old(self)@
                    }
                },
    {
        let fresh = compute_frame_list(self.history_hours);
        self.adopt_newer(fresh)
    }

    /// Take over a list of slots that the archive answered with. An empty list
    /// and one that is already shown change nothing.
    pub fn drain_frame_list(&mut self, list: Vec<i64>) -> (changed: bool)
        requires
            old(self)@.valid(),
        ensures
            final(self)@.valid(),
            changed == (list@.len() > 0 && list@ != old(self)@.slots),
            final(self)@ == if changed {
                old(self)@.adopting(list@, 0)
            } else {
                old(self)@
            },
    {
        if list.len() == 0 || same_slots(&list, &self.timestamps) {
            return false;
        }
        self.adopt(list, 0);
        true
    }

    /// Step one frame toward older, wrapping past the oldest to the newest.
    pub fn next_frame(&mut self)
        ensures
            final(self)@ == old(self)@.moved(Step::Older),
    {
        self.step(Step::Older);
    }

    /// Step one frame toward newer, wrapping past the newest to the oldest.
    pub fn previous_frame(&mut self)
        ensures
            final(self)@ == old(self)@.moved(Step::Newer),
    {
        self.step(Step::Newer);
    }

    fn step(&mut self, dir: Step)
        ensures
            final(self)@ == old(self)@.moved(dir),
    {
        if let Some(i) = stepped_index(self.frame_index, self.timestamps.len(), dir) {
            self.frame_index = i;
            self.playback_mode = self.mode_for_index();
        }
    }

    /// The newest frame is live, however the playhead got there.
    fn mode_for_index(&self) -> (m: PlaybackMode)
        ensures
            m == if self.frame_index == 0 {
                PlaybackMode::Live
            } else {
                PlaybackMode::Paused
            },
    {
        if self.frame_index == 0 {
            PlaybackMode::Live
        } else {
            PlaybackMode::Paused
        }
    }

    /// Return to live mode on the newest frame.
    pub fn jump_to_live(&mut self)
        ensures
            final(self)@ == old(self)@.live(),
    {
        self.playback_mode = PlaybackMode::Live;
        self.frame_index = 0;
    }

    /// Start playback, or stop it: on the newest frame stopping means live.
    pub fn toggle_play_pause(&mut self)
        ensures
            final(self)@ == old(self)@.play_toggled(),
    {
        self.playback_mode = match self.playback_mode {
            PlaybackMode::Playing => self.mode_for_index(),
            _ => PlaybackMode::Playing,
        };
    }

    /// One tick of playback.
    pub fn playback_step(&mut self)
        ensures
            final(self)@ == old(self)@.played(),
    {
        if self.timestamps.len() == 0 {
            return;
        }
        if self.frame_index == 0 {
            self.frame_index = self.timestamps.len() - 1;
        } else {
            self.frame_index = self.frame_index - 1;
        }
    }

    pub fn speed_faster(&mut self)
        ensures
            final(self)@ == (TimelineModel { speed: old(self)@.speed.up(), ..old(self)@ }),
    {
        self.playback_speed = self.playback_speed.faster();
    }

    pub fn speed_slower(&mut self)
        ensures
            final(self)@ == (TimelineModel { speed: old(self)@.speed.down(), ..old(self)@ }),
    {
        self.playback_speed = self.playback_speed.slower();
    }
}

fn same_slots(a: &Vec<i64>, b: &Vec<i64>) -> (r: bool)
    ensures
        r == (a@ == b@),
{
    if a.len() != b.len() {
        return false;
    }
    let mut i: usize = 0;
    while i < a.len()
        invariant
            i <= a.len(),
            a.len() == b.len(),
            forall|j: int| 0 <= j < i ==> a@[j] == b@[j],
        decreases a.len() - i,
    {
        if a[i] != b[i] {
            return false;
        }
        i = i + 1;
    }
    assert(a@ =~= b@);
    true
}

/// Whether two lists start with the same slot, or are both empty.
pub open spec fn same_newest(a: Seq<i64>, b: Seq<i64>) -> bool {
    if a.len() == 0 || b.len() == 0 {
        a.len() == b.len()
    } else {
        a[0] == b[0]
    }
}

/// Every move keeps the place on screen on the timeline.
pub proof fn moves_stay_on_the_timeline(t: TimelineModel, dir: Step)
    requires
        t.valid(),
    ensures
        t.moved(dir).valid(),
        t.played().valid(),
        t.play_toggled().valid(),
        t.live().valid(),
{
}

/// Starting and stopping playback stays on the slot on screen: it plays until it
/// is stopped, and then follows the newest slot or holds on an older one.
pub proof fn playback_stops_where_it_is(t: TimelineModel)
    requires
        t.valid(),
    ensures
        t.play_toggled().current() == t.current(),
        t.mode != PlaybackMode::Playing ==> t.play_toggled().mode == PlaybackMode::Playing,
        t.mode == PlaybackMode::Playing ==> (t.play_toggled().mode == PlaybackMode::Live <==> t.index
            == 0) && (t.play_toggled().mode == PlaybackMode::Paused <==> t.index > 0),
{
}

/// A step by hand to the newest slot goes live, and one to any other holds there.
pub proof fn steps_by_hand_hold_their_slot(t: TimelineModel, dir: Step)
    requires
        t.valid(),
        t.slots.len() > 0,
    ensures
        t.moved(dir).current() == Some(t.slots[stepped(t.index, t.slots.len() as int, dir)->0]),
        t.moved(dir).mode == PlaybackMode::Live <==> t.moved(dir).index == 0,
        t.moved(dir).mode != PlaybackMode::Playing,
        t.live().current() == Some(t.slots[0]),
        t.live().mode == PlaybackMode::Live,
{
}

/// Taking over new slots keeps the slot on screen where the list still has it,
/// unless live mode follows the newest.
pub proof fn adopting_keeps_the_slot_on_screen(t: TimelineModel, slots: Seq<i64>, fallback: int)
    requires
        t.mode != PlaybackMode::Live,
        t.current() is Some,
        slots.contains(t.current()->0),
    ensures
        t.adopting(slots, fallback).current() == t.current(),
{
    lemma_first_place(slots, t.current()->0, 0);
}

/// Playback steps as a hand does toward newer, and a lap of it comes back.
pub proof fn playback_is_stepping_newer(t: TimelineModel)
    requires
        t.valid(),
        t.slots.len() > 0,
    ensures
        Some(t.played().index) == stepped(t.index, t.slots.len() as int, Step::Newer),
{
}

} // verus!
