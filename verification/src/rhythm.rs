//! What comes with time: the next frame of the playback, a look at the slots,
//! and fetches of what has grown old.

use vstd::prelude::*;

use crate::app::App;
use crate::tasks::{elapsed, since};
use crate::timeline::{PlaybackMode, PlaybackSpeed};

verus! {

/// How often observations and warnings are fetched, in nanoseconds.
pub const REFRESH_EVERY: u64 = 300_000_000_000;

/// How often the list of slots is looked at, in nanoseconds.
pub const POLL_EVERY: u64 = 5_000_000_000;

/// What is due at a time.
#[derive(Debug, Clone, Copy, PartialEq, Eq, Structural)]
pub struct Due {
    /// The playback takes a step.
    pub step: bool,
    /// The list of slots is looked at.
    pub poll: bool,
    /// Observations are asked for.
    pub obs: bool,
    /// Warnings are asked for.
    pub warnings: bool,
}

/// How long a frame of the playback stays, in nanoseconds.
pub open spec fn frame_time(speed: PlaybackSpeed) -> int {
    match speed {
        PlaybackSpeed::Half => 2_000_000_000,
        PlaybackSpeed::Normal => 1_000_000_000,
        PlaybackSpeed::Double => 500_000_000,
        PlaybackSpeed::Quad => 250_000_000,
    }
}

/// Whether the last attempt at a fetch is too long ago, or there was none.
pub open spec fn stale(last: Option<u64>, now: u64) -> bool {
    last matches Some(t) ==> since(t, now) >= REFRESH_EVERY
}

fn is_stale(last: Option<u64>, now: u64) -> (r: bool)
    ensures
        r == stale(last, now),
{
    match last {
        Some(t) => elapsed(t, now) >= REFRESH_EVERY,
        None => true,
    }
}

impl App {
    /// What is due at `now`, where the playback last stepped at `last_step` and
    /// the slots were last looked at at `last_poll`. What is under way is not
    /// asked for again.
    pub open spec fn due_at(self, last_step: u64, last_poll: u64, now: u64) -> Due {
        Due {
            step: self.timeline.playback_mode is Playing && since(last_step, now) >= frame_time(
                self.timeline.playback_speed,
            ),
            poll: since(last_poll, now) >= POLL_EVERY,
            obs: !self.obs@.running && stale(self.obs@.last_attempt, now),
            warnings: !self.warnings.running && stale(self.warnings.last_attempt, now),
        }
    }

    /// What is due at `now`.
    pub fn due(&self, last_step: u64, last_poll: u64, now: u64) -> (d: Due)
        ensures
            d == self.due_at(last_step, last_poll, now),
    {
        let playing = matches!(self.timeline.playback_mode, PlaybackMode::Playing);
        let stay: u64 = self.timeline.playback_speed.interval_ms() * 1_000_000;
        Due {
            step: playing && elapsed(last_step, now) >= stay,
            poll: elapsed(last_poll, now) >= POLL_EVERY,
            obs: !self.has_obs_task() && is_stale(self.obs.last_attempt, now),
            warnings: !self.warnings.running && is_stale(self.warnings.last_attempt, now),
        }
    }
}

/// Nothing is fetched again before its time after an attempt, whether that
/// worked or not.
pub proof fn attempts_are_apart(last: u64, now: u64)
    requires
        last <= now < last + REFRESH_EVERY,
    ensures
        !stale(Some(last), now),
{
}

} // verus!
