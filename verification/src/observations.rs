//! The observations on the map: asking for them, and taking them in.

use vstd::prelude::*;
use vstd::string::*;

use crate::double::Double;
use crate::features::{duplicate_points, ObservationLayer, ObservationPoint};
use crate::layers::{LayerId, LayerRegistry, LayerState, LayerStatus};
use crate::radar::{id_after, next_id};
use crate::tasks::{TaskKind, TaskMsg};
use crate::text::{digits, number_text};

verus! {

/// Make the accumulator ready for a fetch: what an earlier one left is dropped.
pub fn reset_obs_accumulator(
    obs_incoming: &mut Vec<ObservationPoint>,
    obs_incoming_id: &mut u64,
    obs_partial: &mut Vec<ObservationPoint>,
    new_id: u64,
)
    ensures
        final(obs_incoming)@ == Seq::<ObservationPoint>::empty(),
        *final(obs_incoming_id) == new_id,
        final(obs_partial)@ == Seq::<ObservationPoint>::empty(),
{
    obs_incoming.clear();
    *obs_incoming_id = new_id;
    obs_partial.clear();
}

/// Whether `after` differs from a registry in the status of the observation
/// layers alone, which was set at `now`.
pub open spec fn obs_updated(
    before: LayerRegistry,
    after: LayerRegistry,
    status: LayerStatus,
    now: u64,
) -> bool {
    &&& after.well_formed()
    &&& after.cursor() == before.cursor()
    &&& after.modes() == before.modes()
    &&& forall|l: LayerId| #[trigger]
        after.state(l) == if l.property() is Some {
            LayerState { status, updated_at: Some(now), ..before.state(l) }
        } else {
            before.state(l)
        }
}

/// Record what the observation layers are doing.
pub fn set_obs_status(layers: &mut LayerRegistry, status: LayerStatus, now: u64)
    requires
        old(layers).well_formed(),
    ensures
        obs_updated(*old(layers), *final(layers), status, now),
{
    layers.set_status(LayerId::SurfTemp, status.duplicate(), now);
    layers.set_status(LayerId::SurfWind, status.duplicate(), now);
    layers.set_status(LayerId::SurfHumidity, status.duplicate(), now);
    layers.set_status(LayerId::SurfPressure, status, now);
}

/// Whether an observation layer is drawn.
pub open spec fn obs_enabled(layers: LayerRegistry) -> bool {
    layers.shown(LayerId::SurfTemp) || layers.shown(LayerId::SurfWind) || layers.shown(
        LayerId::SurfHumidity,
    ) || layers.shown(LayerId::SurfPressure)
}

pub fn any_obs_enabled(layers: &LayerRegistry) -> (r: bool)
    requires
        layers.well_formed(),
    ensures
        r == obs_enabled(*layers),
{
    layers.enabled(LayerId::SurfTemp) || layers.enabled(LayerId::SurfWind) || layers.enabled(
        LayerId::SurfHumidity,
    ) || layers.enabled(LayerId::SurfPressure)
}

/// What a fetch reports.
#[derive(Debug)]
pub enum ObsRefreshPayload {
    /// A report of a station.
    Point(ObservationPoint),
    /// What came so far can be shown; more is to come.
    PartialCommit,
    /// Everything came.
    Ready,
    Error(String),
    /// The fetch ended, well or not.
    Done,
}

#[derive(Debug)]
pub struct ObsRefreshResult {
    pub id: u64,
    pub result: ObsRefreshPayload,
}

/// The observations shown, and those of the fetch under way.
#[derive(Debug)]
pub struct Observations {
    pub refresh_id: u64,
    pub running: bool,
    /// When a fetch was last started, on the program's clock.
    pub last_attempt: Option<u64>,
    /// What came since the last commit.
    pub incoming: Vec<ObservationPoint>,
    pub incoming_id: u64,
    /// What the fetch committed so far.
    pub partial: Vec<ObservationPoint>,
    pub cache: Option<ObservationLayer>,
}

/// The parts of the state that a fetch fills.
#[verifier::ext_equal]
pub struct ObsModel {
    pub refresh_id: u64,
    pub running: bool,
    pub last_attempt: Option<u64>,
    pub incoming: Seq<ObservationPoint>,
    pub incoming_id: u64,
    pub partial: Seq<ObservationPoint>,
    /// The reports shown, and when they came.
    pub cache: Option<(Seq<ObservationPoint>, Option<i64>)>,
}

impl View for Observations {
    type V = ObsModel;

    open spec fn view(&self) -> ObsModel {
        ObsModel {
            refresh_id: self.refresh_id,
            running: self.running,
            last_attempt: self.last_attempt,
            incoming: self.incoming@,
            incoming_id: self.incoming_id,
            partial: self.partial@,
            cache: match self.cache {
                Some(c) => Some((c.points@, c.updated_at)),
                None => None,
            },
        }
    }
}

/// A fetch to start, in place of one under way.
#[derive(Debug)]
pub struct ObsPlan {
    pub abort: bool,
    pub id: u64,
    pub start: TaskMsg,
}

impl ObsModel {
    /// No readings, and none asked for.
    pub open spec fn at_first() -> ObsModel {
        ObsModel {
            refresh_id: 0,
            running: false,
            last_attempt: None,
            incoming: Seq::empty(),
            incoming_id: 0,
            partial: Seq::empty(),
            cache: None,
        }
    }

    /// The state after a fetch was asked for.
    pub open spec fn refreshing(self, now: u64) -> ObsModel {
        ObsModel {
            refresh_id: next_id(self.refresh_id),
            running: true,
            last_attempt: Some(now),
            incoming: Seq::empty(),
            incoming_id: next_id(self.refresh_id),
            partial: Seq::empty(),
            cache: self.cache,
        }
    }

    /// Everything that the fetch brought.
    pub open spec fn gathered(self) -> Seq<ObservationPoint> {
        self.partial + self.incoming
    }

    /// Whether a message shows new observations.
    pub open spec fn shows(self, r: ObsRefreshResult) -> bool {
        r.id == self.refresh_id && r.id == self.incoming_id && match r.result {
            ObsRefreshPayload::PartialCommit => self.incoming.len() > 0,
            ObsRefreshPayload::Ready => self.gathered().len() > 0,
            _ => false,
        }
    }

    /// The state after a message, at `secs` since the epoch. One of an earlier
    /// fetch is ignored.
    pub open spec fn received(self, r: ObsRefreshResult, secs: i64) -> ObsModel {
        if r.id != self.refresh_id {
            self
        } else {
            match r.result {
                ObsRefreshPayload::Point(p) => ObsModel {
                    incoming: self.incoming.push(p),
                    ..self
                },
                ObsRefreshPayload::PartialCommit => if self.shows(r) {
                    ObsModel {
                        incoming: Seq::empty(),
                        partial: self.gathered(),
                        cache: Some((self.gathered(), Some(secs))),
                        ..self
                    }
                } else {
                    self
                },
                ObsRefreshPayload::Ready => if self.shows(r) {
                    ObsModel {
                        incoming: Seq::empty(),
                        partial: Seq::empty(),
                        cache: Some((self.gathered(), Some(secs))),
                        ..self
                    }
                } else {
                    self
                },
                ObsRefreshPayload::Error(_) => self,
                ObsRefreshPayload::Done => ObsModel {
                    running: false,
                    last_attempt: match self.cache {
                        Some((points, _)) => if points.len() == 0 {
                            None
                        } else {
                            self.last_attempt
                        },
                        None => None,
                    },
                    ..self
                },
            }
        }
    }
}

fn append_points(to: &mut Vec<ObservationPoint>, from: Vec<ObservationPoint>)
    ensures
        final(to)@ == old(to)@ + from@,
{
    let ghost all = from@;
    for p in it: from
        invariant
            it.seq() == all,
            to@ == old(to)@ + all.take(it.index() as int),
    {
        assert(all.take(it.index() + 1) =~= all.take(it.index() as int).push(p));
        to.push(p);
    }
    assert(all.take(all.len() as int) =~= all);
}

impl Observations {
    pub fn new() -> (o: Observations)
        ensures
            o@ == ObsModel::at_first(),
    {
        Observations {
            refresh_id: 0,
            running: false,
            last_attempt: None,
            incoming: Vec::new(),
            incoming_id: 0,
            partial: Vec::new(),
            cache: None,
        }
    }

    pub fn has_obs_task(&self) -> (r: bool)
        ensures
            r == self@.running,
    {
        self.running
    }

    /// Ask for a fetch, where an observation layer is drawn. What is shown
    /// stays until the fetch brings something.
    pub fn request_obs_refresh(&mut self, layers: &mut LayerRegistry, now: u64, task_id: u64)
        -> (plan: Option<ObsPlan>)
        requires
            old(layers).well_formed(),
        ensures
            final(layers).well_formed(),
            if obs_enabled(*old(layers)) {
                &&& final(self)@ == old(self)@.refreshing(now)
                &&& obs_updated(*old(layers), *final(layers), LayerStatus::Loading, now)
                &&& plan matches Some(p) && p.abort == old(self)@.running && p.id == next_id(
                    old(self)@.refresh_id,
                ) && (p.start matches TaskMsg::Start { id, label, kind } && id == task_id && label@
                    == "observations"@ && kind == TaskKind::Observation)
            } else {
                &&& *final(self) == *old(self)
                &&& *final(layers) == *old(layers)
                &&& plan is None
            },
    {
        if !any_obs_enabled(layers) {
            return None;
        }
        self.last_attempt = Some(now);
        let abort = self.running;
        self.running = true;
        self.refresh_id = id_after(self.refresh_id);
        let id = self.refresh_id;
        reset_obs_accumulator(&mut self.incoming, &mut self.incoming_id, &mut self.partial, id);
        set_obs_status(layers, LayerStatus::Loading, now);
        assert(self@ =~= old(self)@.refreshing(now));
        Some(
            ObsPlan {
                abort,
                id,
                start: TaskMsg::Start {
                    id: task_id,
                    label: "observations".to_string(),
                    kind: TaskKind::Observation,
                },
            },
        )
    }

    /// Take in a message of a fetch. Returns whether what is shown changed.
    pub fn drain_obs_result(
        &mut self,
        layers: &mut LayerRegistry,
        result: ObsRefreshResult,
        secs: i64,
        now: u64,
    ) -> (changed: bool)
        requires
            old(layers).well_formed(),
        ensures
            final(self)@ == old(self)@.received(result, secs),
            changed == old(self)@.shows(result),
            if result.id == old(self)@.refresh_id && result.result is Ready {
                obs_updated(*old(layers), *final(layers), LayerStatus::Ready, now)
            } else if result.id == old(self)@.refresh_id && result.result is Error {
                obs_updated(
                    *old(layers),
                    *final(layers),
                    LayerStatus::Error(result.result->Error_0),
                    now,
                )
            } else {
                *final(layers) == *old(layers)
            },
    {
        if result.id != self.refresh_id {
            return false;
        }
        let ghost before = self@;
        match result.result {
            ObsRefreshPayload::Point(p) => {
                self.incoming.push(p);
                assert(self@ =~= before.received(result, secs));
                false
            },
            ObsRefreshPayload::PartialCommit => {
                if self.incoming_id != result.id || self.incoming.len() == 0 {
                    return false;
                }
                let mut taken: Vec<ObservationPoint> = Vec::new();
                std::mem::swap(&mut taken, &mut self.incoming);
                append_points(&mut self.partial, taken);
                let points = duplicate_points(&self.partial);
                self.cache = Some(ObservationLayer { points, updated_at: Some(secs) });
                assert(self@ =~= before.received(result, secs));
                true
            },
            ObsRefreshPayload::Ready => {
                let mut changed = false;
                if self.incoming_id == result.id {
                    let mut taken: Vec<ObservationPoint> = Vec::new();
                    std::mem::swap(&mut taken, &mut self.incoming);
                    append_points(&mut self.partial, taken);
                    if self.partial.len() > 0 {
                        let mut points: Vec<ObservationPoint> = Vec::new();
                        std::mem::swap(&mut points, &mut self.partial);
                        self.cache = Some(ObservationLayer { points, updated_at: Some(secs) });
                        changed = true;
                    }
                }
                set_obs_status(layers, LayerStatus::Ready, now);
                assert(self@ =~= before.received(result, secs));
                changed
            },
            ObsRefreshPayload::Error(e) => {
                set_obs_status(layers, LayerStatus::Error(e), now);
                false
            },
            ObsRefreshPayload::Done => {
                self.running = false;
                let empty = match &self.cache {
                    Some(c) => c.points.len() == 0,
                    None => true,
                };
                if empty {
                    self.last_attempt = None;
                }
                assert(self@ =~= before.received(result, secs));
                false
            },
        }
    }
}

/// A fetch that ends leaves the next one free to start at once where there is
/// nothing to show, and otherwise it waits its time; what is shown stays.
pub proof fn a_fetch_without_readings_may_be_repeated(o: ObsModel, id: u64, secs: i64)
    requires
        id == o.refresh_id,
    ensures
        ({
            let end = ObsRefreshResult { id, result: ObsRefreshPayload::Done };
            let done = o.received(end, secs);
            &&& !done.running
            &&& done.cache == o.cache
            &&& (o.cache matches Some((points, _)) && points.len() > 0) ==> done.last_attempt
                == o.last_attempt
            &&& !(o.cache matches Some((points, _)) && points.len() > 0)
                ==> done.last_attempt is None
        }),
{
}

/// The state after messages, one after another.
pub open spec fn after_messages(o: ObsModel, messages: Seq<ObsRefreshResult>, secs: i64) -> ObsModel
    decreases messages.len(),
{
    if messages.len() == 0 {
        o
    } else {
        after_messages(o, messages.drop_last(), secs).received(messages.last(), secs)
    }
}

/// The reports that messages bring, in their order.
pub open spec fn reports_in(messages: Seq<ObsRefreshResult>) -> Seq<ObservationPoint>
    decreases messages.len(),
{
    if messages.len() == 0 {
        Seq::empty()
    } else {
        match messages.last().result {
            ObsRefreshPayload::Point(p) => reports_in(messages.drop_last()).push(p),
            _ => reports_in(messages.drop_last()),
        }
    }
}

/// A fetch shows every report that it brought, in order and once, however often
/// it committed what came so far; until it commits the earlier reports stay, and
/// they stay for good where it brought none.
pub proof fn a_fetch_shows_what_it_brought(
    o: ObsModel,
    messages: Seq<ObsRefreshResult>,
    now: u64,
    secs: i64,
)
    requires
        forall|i: int|
            0 <= i < messages.len() ==> (#[trigger] messages[i]).id == o.refreshing(now).refresh_id
                && (messages[i].result is Point || messages[i].result is PartialCommit),
    ensures
        ({
            let end = ObsRefreshResult {
                id: o.refreshing(now).refresh_id,
                result: ObsRefreshPayload::Ready,
            };
            let done = after_messages(o.refreshing(now), messages, secs).received(end, secs);
            let brought = reports_in(messages);
            &&& brought.len() > 0 ==> done.cache == Some((brought, Some(secs)))
            &&& brought.len() == 0 ==> done.cache == o.cache
        }),
{
    lemma_gathered(o, messages, now, secs);
}

proof fn lemma_gathered(o: ObsModel, messages: Seq<ObsRefreshResult>, now: u64, secs: i64)
    requires
        forall|i: int|
            0 <= i < messages.len() ==> (#[trigger] messages[i]).id == o.refreshing(now).refresh_id
                && (messages[i].result is Point || messages[i].result is PartialCommit),
    ensures
        ({
            let s = after_messages(o.refreshing(now), messages, secs);
            &&& s.gathered() == reports_in(messages)
            &&& s.refresh_id == o.refreshing(now).refresh_id
            &&& s.incoming_id == s.refresh_id
            &&& s.gathered().len() == 0 ==> s.cache == o.cache
        }),
    decreases messages.len(),
{
    if messages.len() > 0 {
        let early = messages.drop_last();
        assert forall|i: int| 0 <= i < early.len() implies (#[trigger] early[i]).id
            == o.refreshing(now).refresh_id && (early[i].result is Point
            || early[i].result is PartialCommit) by {
            assert(early[i] == messages[i]);
        }
        lemma_gathered(o, early, now, secs);
        let before = after_messages(o.refreshing(now), early, secs);
        let s = after_messages(o.refreshing(now), messages, secs);
        assert(messages.last() == messages[messages.len() - 1]);
        match messages.last().result {
            ObsRefreshPayload::Point(p) => {
                assert(s.gathered() =~= before.gathered().push(p));
            },
            _ => {
                assert(s.gathered() =~= before.gathered());
            },
        }
    } else {
        assert(o.refreshing(now).gathered() =~= Seq::<ObservationPoint>::empty());
    }
}

/// A fetch never blanks the map: no message but one that brings reports
/// changes what is shown.
pub proof fn refreshing_keeps_the_map(o: ObsModel, r: ObsRefreshResult, secs: i64, now: u64)
    ensures
        o.refreshing(now).cache == o.cache,
        !o.shows(r) ==> o.received(r, secs).cache == o.cache,
        o.shows(r) ==> (o.received(r, secs).cache matches Some((points, _)) && points
            == o.gathered() && points.len() > 0),
{
}

/// Messages of an earlier fetch change nothing.
pub proof fn stale_messages_are_ignored(o: ObsModel, r: ObsRefreshResult, secs: i64, now: u64)
    requires
        r.id == o.refresh_id,
    ensures
        o.refreshing(now).received(r, secs) == o.refreshing(now),
        !o.refreshing(now).shows(r),
{
}

/// The bit patterns of 0.5, 0.75, 0.875 and 0.9.
pub const HALF_BITS: u64 = 0x3fe0_0000_0000_0000;

pub const THREE_QUARTERS_BITS: u64 = 0x3fe8_0000_0000_0000;

pub const SEVEN_EIGHTHS_BITS: u64 = 0x3fec_0000_0000_0000;

pub const NINE_TENTHS_BITS: u64 = 0x3fec_cccc_cccc_cccd;

/// How far a fetch looks after so many stations: each ten halve what is left,
/// up to 0.9.
pub open spec fn station_fraction(n: nat) -> u64 {
    let tens = n / 10;
    if tens == 0 {
        0
    } else if tens == 1 {
        HALF_BITS
    } else if tens == 2 {
        THREE_QUARTERS_BITS
    } else if tens == 3 {
        SEVEN_EIGHTHS_BITS
    } else {
        NINE_TENTHS_BITS
    }
}

/// What the overlay is told after the `n`-th station: every fifth is reported.
pub fn station_progress(n: u32, task_id: u64) -> (m: Option<TaskMsg>)
    ensures
        m is Some <==> n % 5 == 0,
        m matches Some(TaskMsg::Progress { id, action, fraction }) ==> id == task_id && action@
            == digits(n as nat) + " stations"@ && fraction == Some(
            Double { bits: station_fraction(n as nat) },
        ),
        m matches Some(p) ==> p is Progress,
{
    if n % 5 != 0 {
        return None;
    }
    let bits: u64 = match n / 10 {
        0 => 0,
        1 => HALF_BITS,
        2 => THREE_QUARTERS_BITS,
        3 => SEVEN_EIGHTHS_BITS,
        _ => NINE_TENTHS_BITS,
    };
    Some(
        TaskMsg::Progress {
            id: task_id,
            action: number_text(n as u64).concat(" stations"),
            fraction: Some(Double::from_bits(bits)),
        },
    )
}

} // verus!
