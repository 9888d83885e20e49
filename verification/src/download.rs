//! Fetching radar images: where they are published, how a fetch is retried,
//! and what is known of slots that were asked about.

use std::time::Duration;

use vstd::prelude::*;
use vstd::string::*;

use crate::calendar::{date_at, format_utc, on_calendar, utc_date, written, TO_THE_MINUTE};
use crate::radar::CLOCK_LIMIT;
use crate::retry::{at_most, duration_nanos, RetryPolicy};
use crate::slots::SlotMap;
use crate::tasks::{elapsed, since};
use crate::text::{padded, padded_text, parse_unsigned, trim, trimmed, unsigned_of};
use crate::timeline::{frame_list_at, slots_at};

verus! {

/// How long a slot that was not there is left alone, in nanoseconds.
pub const MISSING_RETRY: u64 = 60_000_000_000;

/// How long a slot that could not be asked about is left alone, in seconds.
pub const TRANSIENT_RETRY_SECS: u64 = 5;

/// The longest wait that a server is granted, in seconds.
pub const MAX_RETRY_AFTER_SECS: u64 = 120;

/// The longest wait that a server is granted, in nanoseconds.
pub const MAX_RETRY_AFTER: u64 = 120_000_000_000;

/// How many times an image is asked for.
pub const DOWNLOAD_ATTEMPTS: u32 = 3;

/// The first wait between two attempts, in nanoseconds.
pub const DOWNLOAD_RETRY_BASE: u32 = 400_000_000;

/// How many slots are remembered before the record starts over.
pub const PROBE_CACHE_MAX: usize = 512;

/// A year in at least four places, its sign among them.
pub open spec fn year_folder(year: int) -> Seq<char> {
    if year < 0 {
        "-"@ + padded((-year) as nat, 3)
    } else {
        padded(year as nat, 4)
    }
}

/// The folder of a date in the archive.
pub open spec fn day_folder(date: (i32, u32, u32)) -> Seq<char> {
    year_folder(date.0 as int) + "/"@ + padded(date.1 as nat, 2) + "/"@ + padded(date.2 as nat, 2)
}

/// The key of a slot's image in the archive. A time that the calendar does not
/// reach counts as the epoch.
pub open spec fn key_of(secs: i64) -> Seq<char> {
    let t = if on_calendar(secs) {
        secs
    } else {
        0
    };
    day_folder(utc_date(t)) + "/OPERA/COMP/OPERA@"@ + written(t, TO_THE_MINUTE@)
        + "@0@DBZH.tiff"@
}

fn folder_text(date: (i32, u32, u32)) -> (s: String)
    ensures
        s@ == day_folder(date),
{
    let (year, month, day) = date;
    let year = if year < 0 {
        "-".to_string().concat(padded_text((0i64 - year as i64) as u64, 3).as_str())
    } else {
        padded_text(year as u64, 4)
    };
    year.concat("/").concat(padded_text(month as u64, 2).as_str()).concat("/").concat(
        padded_text(day as u64, 2).as_str(),
    )
}

/// The key of the image of the slot at `timestamp`.
pub fn s3_key(timestamp: i64) -> (s: String)
    ensures
        s@ == key_of(timestamp),
{
    let t: i64 = if date_at(timestamp).is_some() {
        timestamp
    } else {
        0
    };
    match (date_at(t), format_utc(t, TO_THE_MINUTE)) {
        (Some(date), Some(minute)) => folder_text(date).concat("/OPERA/COMP/OPERA@").concat(
            minute.as_str(),
        ).concat("@0@DBZH.tiff"),
        _ => String::new(),
    }
}

/// The address of the image of the slot at `timestamp`.
pub fn s3_url(endpoint: &str, bucket: &str, timestamp: i64) -> (s: String)
    ensures
        s@ == endpoint@ + "/"@ + bucket@ + "/"@ + key_of(timestamp),
{
    endpoint.to_string().concat("/").concat(bucket).concat("/").concat(s3_key(timestamp).as_str())
}

/// The seconds that a `Retry-After` header asks for. The form with a date is
/// not read.
pub open spec fn asked_wait(header: Option<Seq<char>>) -> Option<u64> {
    match header {
        Some(text) => unsigned_of(trimmed(text)),
        None => None,
    }
}

pub open spec fn text_view(s: Option<&str>) -> Option<Seq<char>> {
    match s {
        Some(s) => Some(s@),
        None => None,
    }
}

/// The image of a slot lies in the folder of its day: the year, the month and the
/// day, each in its own.
pub proof fn images_lie_in_the_folder_of_their_day(secs: i64, year: i32, month: u32, day: u32)
    requires
        on_calendar(secs),
        utc_date(secs) == (year, month, day),
        year >= 0,
    ensures
        key_of(secs) == padded(year as nat, 4) + "/"@ + padded(month as nat, 2) + "/"@ + padded(
            day as nat,
            2,
        ) + "/OPERA/COMP/OPERA@"@ + written(secs, TO_THE_MINUTE@) + "@0@DBZH.tiff"@,
{
}

/// Read a `Retry-After` header.
pub fn retry_after(header: Option<&str>) -> (r: Option<Duration>)
    ensures
        match r {
            Some(d) => asked_wait(text_view(header)) is Some && duration_nanos(d) == asked_wait(
                text_view(header),
            )->0 * 1_000_000_000,
            None => asked_wait(text_view(header)) is None,
        },
{
    match header {
        Some(text) => {
            let t = trim(text);
            match parse_unsigned(t.as_str()) {
                Some(secs) => Some(Duration::new(secs, 0)),
                None => None,
            }
        },
        None => None,
    }
}

/// What asking about a slot established.
#[derive(Debug, Clone, Copy)]
pub enum Probe {
    /// The image is there.
    Exists,
    /// The image is not published.
    Absent,
    /// Nothing was found out; ask again after this long.
    Transient(Duration),
}

/// Whether a status says that all went well.
pub open spec fn succeeds(status: u16) -> bool {
    200 <= status < 300
}

/// Whether a status says that there is no such image.
pub open spec fn absent(status: u16) -> bool {
    status == 404 || status == 410
}

/// What the answer to a question about a slot says: its status and the wait
/// that the server asks for, or no answer at all.
pub fn classify_head(status: Option<u16>, wait: Option<Duration>) -> (p: Probe)
    ensures
        match status {
            Some(code) => {
                &&& p is Exists <==> succeeds(code)
                &&& p is Absent <==> absent(code)
                &&& p matches Probe::Transient(d) ==> match wait {
                    Some(w) => d == w,
                    None => duration_nanos(d) == TRANSIENT_RETRY_SECS * 1_000_000_000,
                }
            },
            None => (p matches Probe::Transient(d) && duration_nanos(d) == TRANSIENT_RETRY_SECS
                * 1_000_000_000),
        },
{
    match status {
        Some(code) => {
            if code >= 200 && code < 300 {
                return Probe::Exists;
            }
            if code == 404 || code == 410 {
                return Probe::Absent;
            }
            match wait {
                Some(w) => Probe::Transient(w),
                None => Probe::Transient(Duration::new(TRANSIENT_RETRY_SECS, 0)),
            }
        },
        None => Probe::Transient(Duration::new(TRANSIENT_RETRY_SECS, 0)),
    }
}

/// What is remembered of a slot that was asked about.
#[derive(Debug, Clone, Copy, PartialEq, Eq, Structural)]
pub enum ProbeResult {
    Exists,
    /// Not there when it was asked about, at this time.
    Missing(u64),
    /// Not reached; to be asked about again from this time on.
    Unreachable(u64),
}

impl ProbeResult {
    /// What it says at time `now`, nothing where it is worth asking again.
    pub open spec fn says(self, now: u64) -> Option<bool> {
        match self {
            ProbeResult::Exists => Some(true),
            ProbeResult::Missing(at) => if since(at, now) < MISSING_RETRY {
                Some(false)
            } else {
                None
            },
            ProbeResult::Unreachable(until) => if now < until {
                Some(false)
            } else {
                None
            },
        }
    }

    /// What is remembered of an answer at time `now`.
    pub open spec fn of(probe: Probe, now: u64) -> ProbeResult {
        match probe {
            Probe::Exists => ProbeResult::Exists,
            Probe::Absent => ProbeResult::Missing(now),
            Probe::Transient(wait) => ProbeResult::Unreachable(
                (now + at_most(duration_nanos(wait), MAX_RETRY_AFTER as nat)) as u64,
            ),
        }
    }
}

/// The record of slots that were asked about.
#[derive(Debug)]
pub struct ProbeCache {
    entries: SlotMap<ProbeResult>,
}

impl View for ProbeCache {
    type V = Map<i64, ProbeResult>;

    closed spec fn view(&self) -> Map<i64, ProbeResult> {
        self.entries.map()
    }
}

/// The record with a new answer; it starts over when it has grown too large.
pub open spec fn recorded(
    m: Map<i64, ProbeResult>,
    ts: i64,
    probe: Probe,
    now: u64,
) -> Map<i64, ProbeResult> {
    let grown = m.insert(ts, ProbeResult::of(probe, now));
    if grown.dom().len() > PROBE_CACHE_MAX {
        Map::empty()
    } else {
        grown
    }
}

impl ProbeCache {
    #[verifier::type_invariant]
    spec fn inv(self) -> bool {
        self.entries.well_formed()
    }

    pub fn new() -> (c: ProbeCache)
        ensures
            c@ == Map::<i64, ProbeResult>::empty(),
    {
        ProbeCache { entries: SlotMap::new() }
    }

    /// What is known of a slot at time `now`: whether it is there, or nothing.
    pub fn known(&self, ts: i64, now: u64) -> (r: Option<bool>)
        ensures
            r == if self@.dom().contains(ts) {
                self@[ts].says(now)
            } else {
                None
            },
    {
        proof {
            use_type_invariant(self);
        }
        match self.entries.get(ts) {
            Some(p) => match *p {
                ProbeResult::Exists => Some(true),
                ProbeResult::Missing(at) => if elapsed(at, now) < MISSING_RETRY {
                    Some(false)
                } else {
                    None
                },
                ProbeResult::Unreachable(until) => if now < until {
                    Some(false)
                } else {
                    None
                },
            },
            None => None,
        }
    }

    /// Remember the answer about a slot, and say whether it is there.
    pub fn record(&mut self, ts: i64, probe: Probe, now: u64) -> (r: bool)
        requires
            now <= CLOCK_LIMIT,
        ensures
            r == (probe is Exists),
            final(self)@ == recorded(old(self)@, ts, probe, now),
    {
        let mut entries: SlotMap<ProbeResult> = SlotMap::new();
        proof {
            use_type_invariant(&*self);
        }
        std::mem::swap(&mut entries, &mut self.entries);
        let result = match probe {
            Probe::Exists => ProbeResult::Exists,
            Probe::Absent => ProbeResult::Missing(now),
            Probe::Transient(wait) => {
                let n: u128 = wait.as_nanos();
                let capped: u64 = if n < MAX_RETRY_AFTER as u128 {
                    n as u64
                } else {
                    MAX_RETRY_AFTER
                };
                ProbeResult::Unreachable(now + capped)
            },
        };
        entries.insert(ts, result);
        proof {
            entries.lemma_slots();
        }
        if entries.len() > PROBE_CACHE_MAX {
            entries.clear();
        }
        self.entries = entries;
        match probe {
            Probe::Exists => true,
            _ => false,
        }
    }
}

/// A slot that was found stays found, however often others are asked about,
/// until the record starts over.
pub proof fn found_slots_stay_found(
    m: Map<i64, ProbeResult>,
    ts: i64,
    other: i64,
    probe: Probe,
    now: u64,
    later: u64,
)
    requires
        m.dom().contains(ts),
        m[ts] == ProbeResult::Exists,
        other != ts,
    ensures
        recorded(m, other, probe, now).dom().contains(ts) ==> recorded(
            m,
            other,
            probe,
            now,
        )[ts].says(later) == Some(true),
{
}

/// A slot that was not reached is asked about again at the latest when the
/// longest wait is over, and one that was not there after a minute.
pub proof fn refusals_expire(probe: Probe, now: u64, later: u64)
    requires
        !(probe is Exists),
        now <= CLOCK_LIMIT,
        later >= now + if probe is Absent {
            MISSING_RETRY
        } else {
            MAX_RETRY_AFTER
        },
    ensures
        ProbeResult::of(probe, now).says(later) is None,
{
}

/// Until then it is left alone: a slot that was not there for a minute, and one
/// that was not reached for as long as the server asks, two minutes at most.
pub proof fn refusals_hold(probe: Probe, now: u64, later: u64)
    requires
        now <= later,
        now <= CLOCK_LIMIT,
    ensures
        probe is Absent && later - now < 60 * 1_000_000_000 ==> ProbeResult::of(probe, now).says(
            later,
        ) == Some(false),
        probe matches Probe::Transient(wait) ==> duration_nanos(wait) <= 120 * 1_000_000_000
            ==> later < now + duration_nanos(wait) ==> ProbeResult::of(probe, now).says(later)
            == Some(false),
        probe is Exists ==> ProbeResult::of(probe, now).says(later) == Some(true),
{
}

/// The slots on the archive at time `now`, newest first: from the slot that
/// `now` falls into where it is `published`, else from the one before.
pub fn frame_list(now: i64, hours: u8, published: bool) -> (frames: Vec<i64>)
    requires
        0 <= now <= i64::MAX - 300,
    ensures
        frames@ == slots_at(
            if published {
                now + 300
            } else {
                now as int
            },
            hours,
        ),
{
    if published {
        frame_list_at(now + 300, hours)
    } else {
        frame_list_at(now, hours)
    }
}

/// The slot that `now` falls into.
pub fn boundary_slot(now: i64) -> (ts: i64)
    requires
        0 <= now,
    ensures
        ts == now - now % 300,
{
    now - now % 300
}

/// The newest slot of the list is the one that `now` falls into where it is
/// published, and the one before it where it is not.
pub proof fn newest_slot_is_published(now: i64, hours: u8, published: bool)
    requires
        0 <= now <= i64::MAX - 300,
        hours > 0,
    ensures
        slots_at(
            if published {
                now + 300
            } else {
                now as int
            },
            hours,
        )[0] == now - now % 300 - if published {
            0int
        } else {
            300int
        },
{
}

/// What came of asking for an image.
#[derive(Debug, Clone, Copy)]
pub enum Answer {
    /// The whole image.
    Image,
    /// A good status, and then the connection broke.
    Broken,
    /// Another status, with the wait that the server asks for.
    Status(u16, Option<Duration>),
    /// Nothing.
    Unreachable,
}

/// What to do after an answer.
#[derive(Debug, Clone, Copy)]
pub enum DownloadStep {
    /// The image is here.
    Done,
    /// Ask again after this long.
    Retry(Duration),
    /// There is no such image.
    NotPublished,
    /// Enough attempts were made.
    GiveUp,
}

/// The attempts to fetch an image.
#[derive(Debug)]
pub struct Download {
    /// The number of the attempt under way, from one.
    pub attempt: u32,
    /// How long to wait before the next one.
    delay: Duration,
}

/// The number of the attempt and the wait after it, in nanoseconds.
pub struct DownloadModel {
    pub attempt: int,
    pub delay: nat,
}

impl View for Download {
    type V = DownloadModel;

    closed spec fn view(&self) -> DownloadModel {
        DownloadModel { attempt: self.attempt as int, delay: duration_nanos(self.delay) }
    }
}

impl DownloadModel {
    /// The wait once an answer is in: the server's wish goes before the
    /// sequence, up to the longest wait.
    pub open spec fn wait_after(self, a: Answer) -> nat {
        match a {
            Answer::Status(code, Some(after)) => if succeeds(code) || absent(code) {
                self.delay
            } else {
                at_most(duration_nanos(after), MAX_RETRY_AFTER as nat)
            },
            _ => self.delay,
        }
    }

    /// Whether an answer ends the fetch for good.
    pub open spec fn is_final(a: Answer) -> bool {
        match a {
            Answer::Image => true,
            Answer::Status(code, _) => absent(code),
            _ => false,
        }
    }

    /// The attempts after an answer. Waits double from the last one.
    pub open spec fn after(self, a: Answer) -> DownloadModel {
        if Self::is_final(a) {
            self
        } else if self.attempt < DOWNLOAD_ATTEMPTS {
            DownloadModel {
                attempt: self.attempt + 1,
                delay: at_most(2 * self.wait_after(a), MAX_RETRY_AFTER as nat),
            }
        } else {
            DownloadModel { attempt: self.attempt, delay: self.wait_after(a) }
        }
    }
}

impl Download {
    pub fn new() -> (d: Download)
        ensures
            d@.attempt == 1,
            d@.delay == DOWNLOAD_RETRY_BASE,
    {
        Download { attempt: 1, delay: Duration::new(0, DOWNLOAD_RETRY_BASE) }
    }

    fn policy() -> (p: RetryPolicy)
        ensures
            p.ceiling_nanos() == MAX_RETRY_AFTER,
    {
        RetryPolicy::new(
            Duration::new(0, DOWNLOAD_RETRY_BASE),
            Duration::new(MAX_RETRY_AFTER_SECS, 0),
            Some(DOWNLOAD_ATTEMPTS),
        )
    }

    /// Decide what follows an answer.
    pub fn answered(&mut self, a: Answer) -> (step: DownloadStep)
        ensures
            final(self)@ == old(self)@.after(a),
            step is Done <==> a is Image,
            step is NotPublished <==> (a matches Answer::Status(code, _) && absent(code)),
            step is GiveUp <==> !DownloadModel::is_final(a) && old(self)@.attempt
                >= DOWNLOAD_ATTEMPTS,
            step matches DownloadStep::Retry(wait) ==> duration_nanos(wait) == old(
                self,
            )@.wait_after(a),
    {
        match a {
            Answer::Image => {
                return DownloadStep::Done;
            },
            Answer::Status(code, after) => {
                if code == 404 || code == 410 {
                    return DownloadStep::NotPublished;
                }
                if !(code >= 200 && code < 300) {
                    match after {
                        Some(wait) => {
                            let n: u128 = wait.as_nanos();
                            self.delay = if n < MAX_RETRY_AFTER as u128 {
                                wait
                            } else {
                                Duration::new(MAX_RETRY_AFTER_SECS, 0)
                            };
                        },
                        None => {},
                    }
                }
            },
            _ => {},
        }
        if self.attempt < DOWNLOAD_ATTEMPTS {
            let wait = self.delay;
            self.delay = Self::policy().double(wait);
            self.attempt = self.attempt + 1;
            DownloadStep::Retry(wait)
        } else {
            DownloadStep::GiveUp
        }
    }
}

/// Each wait is twice the last one, and starts at four tenths of a second; where
/// the server names one, it is that one, and the next is twice as long.
pub proof fn waits_double(d: DownloadModel, a: Answer, b: Answer, code: u16, wait: Duration)
    requires
        d.attempt == 1,
        d.delay == DOWNLOAD_RETRY_BASE,
        a is Unreachable || a is Broken,
        b is Unreachable || b is Broken,
    ensures
        d.wait_after(a) == 400_000_000,
        d.after(a).wait_after(b) == 800_000_000,
        !(200 <= code < 300) && code != 404 && code != 410 && duration_nanos(wait) <= 60
            * 1_000_000_000 ==> {
            let asked = Answer::Status(code, Some(wait));
            &&& d.wait_after(asked) == duration_nanos(wait)
            &&& d.after(asked).wait_after(b) == 2 * duration_nanos(wait)
        },
{
}

/// The attempts after a number of answers.
pub open spec fn after_answers(d: DownloadModel, answers: Seq<Answer>) -> DownloadModel
    decreases answers.len(),
{
    if answers.len() == 0 {
        d
    } else {
        after_answers(d, answers.drop_last()).after(answers.last())
    }
}

/// An image is asked for three times at most, and no wait in between is longer
/// than the longest that a server is granted.
pub proof fn downloads_come_to_an_end(d: DownloadModel, answers: Seq<Answer>)
    requires
        d.attempt == 1,
        d.delay == DOWNLOAD_RETRY_BASE,
    ensures
        1 <= after_answers(d, answers).attempt <= DOWNLOAD_ATTEMPTS,
        (forall|i: int| 0 <= i < answers.len() ==> !DownloadModel::is_final(#[trigger] answers[i]))
            ==> after_answers(d, answers).attempt == if answers.len() < DOWNLOAD_ATTEMPTS {
            1 + answers.len()
        } else {
            DOWNLOAD_ATTEMPTS as nat
        },
        forall|a: Answer| after_answers(d, answers).wait_after(a) <= MAX_RETRY_AFTER,
    decreases answers.len(),
{
    if answers.len() > 0 {
        downloads_come_to_an_end(d, answers.drop_last());
        let before = after_answers(d, answers.drop_last());
        assert(before.wait_after(answers.last()) <= MAX_RETRY_AFTER);
        assert(before.wait_after(Answer::Unreachable) <= MAX_RETRY_AFTER);
        if forall|i: int| 0 <= i < answers.len() ==> !DownloadModel::is_final(
            #[trigger] answers[i],
        ) {
            assert forall|i: int| 0 <= i < answers.drop_last().len() implies !DownloadModel::is_final(
                #[trigger] answers.drop_last()[i],
            ) by {
                assert(answers[i] == answers.drop_last()[i]);
            }
            assert(!DownloadModel::is_final(answers[answers.len() - 1]));
        }
    }
}

} // verus!
