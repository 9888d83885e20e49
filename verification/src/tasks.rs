//! Background tasks as the progress overlay shows them.
//!
//! Times are readings of the program's clock in nanoseconds.

use vstd::prelude::*;
use vstd::string::*;

use crate::double::Double;

verus! {

/// Kinds of background tasks.
#[derive(Debug, Clone, Copy, PartialEq, Eq, Structural)]
pub enum TaskKind {
    BorderDownload,
    BorderTileGen,
    RadarFrame,
    Observation,
    Warning,
    FrameList,
    Verify,
}

/// The terminal colours that tell the kinds apart.
#[derive(Debug, Clone, Copy, PartialEq, Eq, Structural)]
pub enum TaskColor {
    LightBlue,
    LightGreen,
    LightYellow,
    LightMagenta,
    LightRed,
    LightCyan,
    White,
}

impl TaskKind {
    pub fn color(&self) -> (c: TaskColor)
        ensures
            c == match self {
                TaskKind::BorderDownload => TaskColor::LightBlue,
                TaskKind::BorderTileGen => TaskColor::LightGreen,
                TaskKind::RadarFrame => TaskColor::LightYellow,
                TaskKind::Observation => TaskColor::LightMagenta,
                TaskKind::Warning => TaskColor::LightRed,
                TaskKind::FrameList => TaskColor::LightCyan,
                TaskKind::Verify => TaskColor::White,
            },
    {
        match self {
            TaskKind::BorderDownload => TaskColor::LightBlue,
            TaskKind::BorderTileGen => TaskColor::LightGreen,
            TaskKind::RadarFrame => TaskColor::LightYellow,
            TaskKind::Observation => TaskColor::LightMagenta,
            TaskKind::Warning => TaskColor::LightRed,
            TaskKind::FrameList => TaskColor::LightCyan,
            TaskKind::Verify => TaskColor::White,
        }
    }

    pub fn label(&self) -> (s: &'static str)
        ensures
            s@ == match self {
                TaskKind::BorderDownload => "border"@,
                TaskKind::BorderTileGen => "tiles"@,
                TaskKind::RadarFrame => "radar"@,
                TaskKind::Observation => "obs"@,
                TaskKind::Warning => "warn"@,
                TaskKind::FrameList => "frames"@,
                TaskKind::Verify => "verify"@,
            },
    {
        match self {
            TaskKind::BorderDownload => "border",
            TaskKind::BorderTileGen => "tiles",
            TaskKind::RadarFrame => "radar",
            TaskKind::Observation => "obs",
            TaskKind::Warning => "warn",
            TaskKind::FrameList => "frames",
            TaskKind::Verify => "verify",
        }
    }
}

#[derive(Debug, Clone, Copy, PartialEq, Eq, Structural)]
pub enum TaskState {
    Running,
    Completed,
    Error,
    /// Another task of the kind took its place.
    Superseded,
}

/// What a background task reports.
#[derive(Debug)]
pub enum TaskMsg {
    Start { id: u64, label: String, kind: TaskKind },
    /// No fraction means that there is no measure of the progress.
    Progress { id: u64, action: String, fraction: Option<Double> },
    Complete { id: u64 },
    Error { id: u64, error: String },
}

/// A row of the overlay.
#[derive(Debug)]
pub struct ActiveTask {
    pub id: u64,
    pub label: String,
    pub action: String,
    /// How far the task is; none where that cannot be measured.
    pub fraction: Option<Double>,
    /// What the bar shows while it eases toward `fraction`.
    pub display_fraction: Double,
    /// Where the easing began.
    pub anim_from: Double,
    /// How far the easing is, from zero to one.
    pub anim_t: Double,
    pub kind: TaskKind,
    pub state: TaskState,
    pub started_at: u64,
    pub completed_at: Option<u64>,
    pub last_anim: u64,
}

/// A task must run so long before it gets a row: 150 milliseconds.
pub const TASK_VISIBLE_AFTER: u64 = 150_000_000;

/// A finished task keeps its row for three seconds.
pub const TASK_LINGER: u64 = 3_000_000_000;

pub const ZERO_BITS: u64 = 0;

pub const ONE_BITS: u64 = 0x3ff0_0000_0000_0000;

/// A bar that shows 0.999 is full.
pub const FULL_BITS: u64 = 0x3fef_f7ce_d916_872b;

/// The time from `then` to `now`, none where `now` is earlier.
pub open spec fn since(then: u64, now: u64) -> int {
    if now >= then {
        now - then
    } else {
        0
    }
}

pub fn elapsed(then: u64, now: u64) -> (d: u64)
    ensures
        d == since(then, now),
{
    now.saturating_sub(then)
}

impl ActiveTask {
    /// Whether the bar starts easing anew when the fraction changes: always
    /// when a measure appears, otherwise when it moved enough to see.
    pub open spec fn eases(self, fraction: Option<Double>, moved: bool) -> bool {
        fraction is Some && (self.fraction is None || moved)
    }

    /// Take in a progress report. `moved` tells whether the fraction before
    /// and the new one lie more than a thousandth apart.
    pub fn apply_progress(&mut self, action: String, fraction: Option<Double>, moved: bool)
        ensures
            *final(self) == (ActiveTask {
                action,
                fraction,
                anim_from: if old(self).eases(fraction, moved) {
                    old(self).display_fraction
                } else {
                    old(self).anim_from
                },
                anim_t: if old(self).eases(fraction, moved) {
                    (Double { bits: ZERO_BITS })
                } else {
                    old(self).anim_t
                },
                ..*old(self)
            }),
    {
        if fraction.is_some() && (self.fraction.is_none() || moved) {
            self.anim_from = self.display_fraction;
            self.anim_t = Double::from_bits(ZERO_BITS);
        }
        self.action = action;
        self.fraction = fraction;
    }

    /// Finish the task: the bar eases to full, whatever it showed before.
    pub fn apply_complete(&mut self, now: u64)
        ensures
            *final(self) == (ActiveTask {
                anim_from: old(self).display_fraction,
                anim_t: (Double { bits: ZERO_BITS }),
                fraction: Some(Double { bits: ONE_BITS }),
                state: TaskState::Completed,
                completed_at: Some(now),
                ..*old(self)
            }),
    {
        self.anim_from = self.display_fraction;
        self.anim_t = Double::from_bits(ZERO_BITS);
        self.fraction = Some(Double::from_bits(ONE_BITS));
        self.state = TaskState::Completed;
        self.completed_at = Some(now);
    }

    pub open spec fn visible(self, now: u64) -> bool {
        match self.state {
            TaskState::Error => true,
            TaskState::Running => since(self.started_at, now) >= TASK_VISIBLE_AFTER,
            _ => match self.completed_at {
                Some(c) => since(self.started_at, c) >= TASK_VISIBLE_AFTER,
                None => false,
            },
        }
    }

    /// Whether the task has earned a row: a failed one always, a running one
    /// once it is old enough, a finished one if it ran long enough.
    pub fn is_visible(&self, now: u64) -> (r: bool)
        ensures
            r == self.visible(now),
    {
        match self.state {
            TaskState::Error => true,
            TaskState::Running => elapsed(self.started_at, now) >= TASK_VISIBLE_AFTER,
            _ => match self.completed_at {
                Some(c) => elapsed(self.started_at, c) >= TASK_VISIBLE_AFTER,
                None => false,
            },
        }
    }

    /// Whether the row stays: while the task runs, while a completed task's
    /// bar is not full, and for a while after the end.
    pub open spec fn stays(self, now: u64) -> bool {
        ||| self.state == TaskState::Running
        ||| self.state != TaskState::Error && self.display_fraction.below(
            Double { bits: FULL_BITS },
        )
        ||| match self.completed_at {
            Some(c) => since(c, now) < TASK_LINGER,
            None => true,
        }
    }

    fn is_kept(&self, now: u64) -> (r: bool)
        ensures
            r == self.stays(now),
    {
        self.state == TaskState::Running || (self.state != TaskState::Error
            && self.display_fraction.lt(Double::from_bits(FULL_BITS))) || match self.completed_at {
            Some(c) => elapsed(c, now) < TASK_LINGER,
            None => true,
        }
    }

    /// Whether the bar is still easing toward a measured fraction.
    pub open spec fn easing(self) -> bool {
        self.fraction is Some && self.anim_t.below(Double { bits: ONE_BITS })
    }

    pub fn is_easing(&self) -> (r: bool)
        ensures
            r == self.easing(),
    {
        self.fraction.is_some() && self.anim_t.lt(Double::from_bits(ONE_BITS))
    }
}

/// A task that runs for long enough has a row while it runs, and a failed one has
/// one from the start.
pub proof fn slow_tasks_get_a_row(t: ActiveTask, now: u64)
    ensures
        t.state == TaskState::Running ==> (t.visible(now) <==> since(t.started_at, now)
            >= TASK_VISIBLE_AFTER),
        t.state == TaskState::Error ==> t.visible(now),
        t.state == TaskState::Running ==> t.stays(now),
{
}

/// A task that ran for less than the threshold never gets a row, however long
/// ago it ended; one that failed always has one.
pub proof fn fast_tasks_never_flash(t: ActiveTask, now: u64)
    requires
        t.completed_at is Some,
        since(t.started_at, t.completed_at->0) < TASK_VISIBLE_AFTER,
        t.state != TaskState::Running,
    ensures
        t.visible(now) <==> t.state == TaskState::Error,
{
}

/// Hands out task ids.
#[derive(Debug)]
pub struct TaskIds {
    pub next: u64,
}

impl TaskIds {
    /// The first id is 1.
    pub fn new() -> (ids: TaskIds)
        ensures
            ids.next == 1,
    {
        TaskIds { next: 1 }
    }
}

/// A fresh task id; ids wrap.
pub fn next_task_id(ids: &mut TaskIds) -> (id: u64)
    ensures
        id == old(ids).next,
        final(ids).next == if old(ids).next == u64::MAX {
            0
        } else {
            old(ids).next + 1
        },
{
    let id = ids.next;
    ids.next = id.wrapping_add(1);
    id
}

/// The first row of a kind.
pub open spec fn row_of_kind(rows: Seq<ActiveTask>, kind: TaskKind, from: int) -> Option<int>
    decreases rows.len() - from,
{
    if from < 0 || from >= rows.len() {
        None
    } else if rows[from].kind == kind {
        Some(from)
    } else {
        row_of_kind(rows, kind, from + 1)
    }
}

/// The first row with an id.
pub open spec fn row_of_id(rows: Seq<ActiveTask>, id: u64, from: int) -> Option<int>
    decreases rows.len() - from,
{
    if from < 0 || from >= rows.len() {
        None
    } else if rows[from].id == id {
        Some(from)
    } else {
        row_of_id(rows, id, from + 1)
    }
}

/// The rows of the overlay.
#[derive(Debug)]
pub struct TaskRows {
    pub active: Vec<ActiveTask>,
}

/// Whether `t` is a row for a task that just started, easing from `shown`.
pub open spec fn fresh_row(
    t: ActiveTask,
    id: u64,
    label: String,
    kind: TaskKind,
    shown: Double,
    now: u64,
) -> bool {
    &&& t.id == id
    &&& t.label == label
    &&& t.action@ == Seq::<char>::empty()
    &&& t.fraction == Some(Double { bits: ZERO_BITS })
    &&& t.display_fraction == shown
    &&& t.anim_from == shown
    &&& t.anim_t == (Double { bits: ZERO_BITS })
    &&& t.kind == kind
    &&& t.state == TaskState::Running
    &&& t.started_at == now
    &&& t.completed_at is None
    &&& t.last_anim == now
}

/// No two rows of one kind.
pub open spec fn one_row_per_kind(rows: Seq<ActiveTask>) -> bool {
    forall|i: int, j: int|
        0 <= i < j < rows.len() ==> (#[trigger] rows[i]).kind != (#[trigger] rows[j]).kind
}

impl TaskRows {
    pub fn new() -> (r: TaskRows)
        ensures
            r.active@ == Seq::<ActiveTask>::empty(),
    {
        TaskRows { active: Vec::new() }
    }

    fn find_kind(&self, kind: TaskKind) -> (r: Option<usize>)
        ensures
            match r {
                Some(i) => row_of_kind(self.active@, kind, 0) == Some(i as int) && i
                    < self.active.len() && self.active@[i as int].kind == kind,
                None => row_of_kind(self.active@, kind, 0) is None && forall|j: int|
                    0 <= j < self.active@.len() ==> (#[trigger] self.active@[j]).kind != kind,
            },
    {
        let mut i: usize = 0;
        while i < self.active.len()
            invariant
                i <= self.active.len(),
                row_of_kind(self.active@, kind, 0) == row_of_kind(self.active@, kind, i as int),
                forall|j: int| 0 <= j < i ==> (#[trigger] self.active@[j]).kind != kind,
            decreases self.active.len() - i,
        {
            if self.active[i].kind == kind {
                return Some(i);
            }
            i = i + 1;
        }
        None
    }

    fn find_id(&self, id: u64) -> (r: Option<usize>)
        ensures
            match r {
                Some(i) => row_of_id(self.active@, id, 0) == Some(i as int) && i
                    < self.active.len(),
                None => row_of_id(self.active@, id, 0) is None,
            },
    {
        let mut i: usize = 0;
        while i < self.active.len()
            invariant
                i <= self.active.len(),
                row_of_id(self.active@, id, 0) == row_of_id(self.active@, id, i as int),
            decreases self.active.len() - i,
        {
            if self.active[i].id == id {
                return Some(i);
            }
            i = i + 1;
        }
        None
    }

    /// The fraction that the row of a task shows, if it has one.
    pub fn fraction_of(&self, id: u64) -> (r: Option<Double>)
        ensures
            r == match row_of_id(self.active@, id, 0) {
                Some(i) => self.active@[i].fraction,
                None => None,
            },
    {
        match self.find_id(id) {
            Some(i) => self.active[i].fraction,
            None => None,
        }
    }

    /// Take in what a task reports. A start takes over the row of its kind;
    /// anything else concerns the row with its id, if there is one. `moved`
    /// tells of a progress report whether its fraction lies more than a
    /// thousandth from the row's.
    pub fn drain_task_message(&mut self, msg: TaskMsg, moved: bool, now: u64)
        ensures
            one_row_per_kind(old(self).active@) ==> one_row_per_kind(final(self).active@),
            match msg {
                TaskMsg::Start { id, label, kind } => match row_of_kind(
                    old(self).active@,
                    kind,
                    0,
                ) {
                    Some(i) => {
                        &&& final(self).active@.len() == old(self).active@.len()
                        &&& fresh_row(
                            final(self).active@[i],
                            id,
                            label,
                            kind,
                            old(self).active@[i].display_fraction,
                            now,
                        )
                        &&& final(self).active@ == old(self).active@.update(
                            i,
                            final(self).active@[i],
                        )
                    },
                    None => {
                        &&& final(self).active@.len() == old(self).active@.len() + 1
                        &&& fresh_row(
                            final(self).active@.last(),
                            id,
                            label,
                            kind,
                            (Double { bits: ZERO_BITS }),
                            now,
                        )
                        &&& final(self).active@.drop_last() == old(self).active@
                    },
                },
                TaskMsg::Progress { id, action, fraction } => match row_of_id(
                    old(self).active@,
                    id,
                    0,
                ) {
                    Some(i) => final(self).active@ == old(self).active@.update(
                        i,
                        ({
                            let t = old(self).active@[i];
                            ActiveTask {
                                action,
                                fraction,
                                anim_from: if t.eases(fraction, moved) {
                                    t.display_fraction
                                } else {
                                    t.anim_from
                                },
                                anim_t: if t.eases(fraction, moved) {
                                    (Double { bits: ZERO_BITS })
                                } else {
                                    t.anim_t
                                },
                                ..t
                            }
                        }),
                    ),
                    None => final(self).active@ == old(self).active@,
                },
                TaskMsg::Complete { id } => match row_of_id(old(self).active@, id, 0) {
                    Some(i) => final(self).active@ == old(self).active@.update(
                        i,
                        (ActiveTask {
                            anim_from: old(self).active@[i].display_fraction,
                            anim_t: (Double { bits: ZERO_BITS }),
                            fraction: Some(Double { bits: ONE_BITS }),
                            state: TaskState::Completed,
                            completed_at: Some(now),
                            ..old(self).active@[i]
                        }),
                    ),
                    None => final(self).active@ == old(self).active@,
                },
                TaskMsg::Error { id, error } => match row_of_id(old(self).active@, id, 0) {
                    Some(i) => final(self).active@ == old(self).active@.update(
                        i,
                        (ActiveTask {
                            action: error,
                            state: TaskState::Error,
                            completed_at: Some(now),
                            ..old(self).active@[i]
                        }),
                    ),
                    None => final(self).active@ == old(self).active@,
                },
            },
    {
        match msg {
            TaskMsg::Start { id, label, kind } => {
                let zero = Double::from_bits(ZERO_BITS);
                match self.find_kind(kind) {
                    Some(i) => {
                        let shown = self.active[i].display_fraction;
                        self.active[i] = ActiveTask {
                            id,
                            label,
                            action: String::new(),
                            fraction: Some(zero),
                            display_fraction: shown,
                            anim_from: shown,
                            anim_t: zero,
                            kind,
                            state: TaskState::Running,
                            started_at: now,
                            completed_at: None,
                            last_anim: now,
                        };
                    },
                    None => {
                        self.active.push(
                            ActiveTask {
                                id,
                                label,
                                action: String::new(),
                                fraction: Some(zero),
                                display_fraction: zero,
                                anim_from: zero,
                                anim_t: zero,
                                kind,
                                state: TaskState::Running,
                                started_at: now,
                                completed_at: None,
                                last_anim: now,
                            },
                        );
                        assert(self.active@.drop_last() =~= old(self).active@);
                    },
                }
            },
            TaskMsg::Progress { id, action, fraction } => {
                if let Some(i) = self.find_id(id) {
                    self.active[i].apply_progress(action, fraction, moved);
                }
            },
            TaskMsg::Complete { id } => {
                if let Some(i) = self.find_id(id) {
                    self.active[i].apply_complete(now);
                }
            },
            TaskMsg::Error { id, error } => {
                if let Some(i) = self.find_id(id) {
                    self.active[i].action = error;
                    self.active[i].state = TaskState::Error;
                    self.active[i].completed_at = Some(now);
                }
            },
        }
    }

    /// Record how far a row's bar has eased.
    pub fn set_easing(&mut self, i: usize, anim_t: Double, display: Double)
        requires
            i < old(self).active@.len(),
        ensures
            final(self).active@ == old(self).active@.update(
                i as int,
                (ActiveTask { anim_t, display_fraction: display, ..old(self).active@[i as int] }),
            ),
    {
        self.active[i].anim_t = anim_t;
        self.active[i].display_fraction = display;
    }

    /// Drop the rows that do not stay. Returns whether any went.
    pub fn prune(&mut self, now: u64) -> (changed: bool)
        ensures
            final(self).active@ == old(self).active@.filter(|t: ActiveTask| t.stays(now)),
            changed == (final(self).active@.len() < old(self).active@.len()),
    {
        let mut rows: Vec<ActiveTask> = Vec::new();
        std::mem::swap(&mut rows, &mut self.active);
        let before: usize = rows.len();
        let ghost all = rows@;
        let ghost keep = |t: ActiveTask| t.stays(now);
        let mut kept: Vec<ActiveTask> = Vec::new();
        proof {
            reveal(Seq::filter);
            assert(all.take(0) =~= Seq::empty());
        }
        for t in it: rows
            invariant
                it.seq() == all,
                keep == (|t: ActiveTask| t.stays(now)),
                kept@ == all.take(it.index() as int).filter(keep),
        {
            proof {
                reveal(Seq::filter);
                assert(all.take(it.index() + 1).drop_last() =~= all.take(it.index() as int));
                assert(all.take(it.index() + 1).last() == t);
            }
            if t.is_kept(now) {
                kept.push(t);
            }
        }
        assert(all.take(all.len() as int) =~= all);
        let changed = kept.len() < before;
        self.active = kept;
        changed
    }
}

/// A finished task leaves the overlay three seconds after its end, once a
/// completed one's bar is full; a running task stays.
pub proof fn finished_rows_leave(t: ActiveTask, now: u64)
    requires
        t.completed_at is Some,
        since(t.completed_at->0, now) >= TASK_LINGER,
    ensures
        t.state == TaskState::Running ==> t.stays(now),
        t.state == TaskState::Error ==> !t.stays(now),
        t.state == TaskState::Completed && t.display_fraction == (Double { bits: ONE_BITS })
            ==> !t.stays(now),
{
    if t.display_fraction == (Double { bits: ONE_BITS }) {
        crate::double::lemma_order_of_patterns(FULL_BITS, ONE_BITS);
    }
}

} // verus!
