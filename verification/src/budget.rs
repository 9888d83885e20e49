//! How often the gateway may be asked.

use vstd::prelude::*;

use crate::config::{EumetnetConfig, ANON_HOURLY_QUOTA, AUTH_HOURLY_QUOTA};
use crate::tasks::{elapsed, since};
use crate::text::blank;

verus! {

/// The gateway's quota is counted over an hour.
pub const BUDGET_WINDOW: u64 = 3_600_000_000_000;

/// The requests of the last window, oldest first, each with its time on the
/// program's clock.
#[derive(Debug)]
pub struct RequestBudget {
    pub spent: Vec<u64>,
}

/// Whether a request at `t` still counts at `now`.
pub open spec fn counts(t: u64, now: u64, window: u64) -> bool {
    since(t, now) < window
}

/// The requests that still count at `now`.
pub open spec fn counting(spent: Seq<u64>, now: u64, window: u64) -> Seq<u64> {
    spent.filter(|t: u64| counts(t, now, window))
}

impl RequestBudget {
    pub fn new() -> (b: RequestBudget)
        ensures
            b.spent@ == Seq::<u64>::empty(),
    {
        RequestBudget { spent: Vec::new() }
    }

    /// Drop the requests that no longer count.
    pub fn expire(&mut self, window: u64, now: u64)
        ensures
            final(self).spent@ == counting(old(self).spent@, now, window),
    {
        let ghost all = self.spent@;
        let ghost keep = |t: u64| counts(t, now, window);
        let mut kept: Vec<u64> = Vec::new();
        let mut i: usize = 0;
        proof {
            reveal(Seq::filter);
            assert(all.take(0) =~= Seq::<u64>::empty());
        }
        while i < self.spent.len()
            invariant
                i <= self.spent.len(),
                self.spent@ == all,
                keep == (|t: u64| counts(t, now, window)),
                kept@ == all.take(i as int).filter(keep),
            decreases self.spent.len() - i,
        {
            proof {
                reveal(Seq::filter);
                assert(all.take(i + 1).drop_last() =~= all.take(i as int));
            }
            let t: u64 = self.spent[i];
            if elapsed(t, now) < window {
                kept.push(t);
            }
            i = i + 1;
        }
        assert(all.take(i as int) =~= all);
        self.spent = kept;
    }

    /// Take a request from the budget, where one is left.
    pub fn try_spend(&mut self, limit: u32, window: u64, now: u64) -> (r: bool)
        ensures
            r == (counting(old(self).spent@, now, window).len() < limit),
            final(self).spent@ == if r {
                counting(old(self).spent@, now, window).push(now)
            } else {
                counting(old(self).spent@, now, window)
            },
    {
        self.expire(window, now);
        if self.spent.len() as u64 >= limit as u64 {
            return false;
        }
        self.spent.push(now);
        true
    }

    /// How many requests are left.
    pub fn remaining(&mut self, limit: u32, window: u64, now: u64) -> (n: u32)
        ensures
            final(self).spent@ == counting(old(self).spent@, now, window),
            n == if final(self).spent@.len() < limit {
                limit - final(self).spent@.len()
            } else {
                0
            },
    {
        self.expire(window, now);
        if (self.spent.len() as u64) < limit as u64 {
            limit - self.spent.len() as u32
        } else {
            0
        }
    }
}

/// The budget is never overrun: where a request is taken, the requests that
/// count at its time, itself among them, are within the limit.
pub proof fn budget_is_never_overrun(spent: Seq<u64>, limit: u32, window: u64, now: u64)
    requires
        counting(spent, now, window).len() < limit,
        window > 0,
    ensures
        counting(counting(spent, now, window).push(now), now, window)
            == counting(spent, now, window).push(now),
        counting(counting(spent, now, window).push(now), now, window).len() <= limit,
{
    let keep = |t: u64| counts(t, now, window);
    let kept = spent.filter(keep);
    assert forall|i: int| 0 <= i < kept.len() implies #[trigger] keep(kept[i]) by {
        spent.lemma_filter_pred(keep, i);
    }
    lemma_all_stay(kept, keep);
    reveal(Seq::filter);
    assert(kept.push(now).drop_last() =~= kept);
}

proof fn lemma_all_stay(s: Seq<u64>, keep: spec_fn(u64) -> bool)
    requires
        forall|i: int| 0 <= i < s.len() ==> #[trigger] keep(s[i]),
    ensures
        s.filter(keep) == s,
    decreases s.len(),
{
    reveal(Seq::filter);
    if s.len() > 0 {
        assert(keep(s[s.len() - 1]));
        assert forall|i: int| 0 <= i < s.drop_last().len() implies #[trigger] keep(
            s.drop_last()[i],
        ) by {
            assert(keep(s[i]));
        }
        lemma_all_stay(s.drop_last(), keep);
        assert(s.drop_last().push(s.last()) =~= s);
    } else {
        assert(s.filter(keep) =~= s);
    }
}

/// A request that is refused costs nothing, and what was spent comes back once
/// it is as old as the window.
pub proof fn spent_requests_come_back(spent: Seq<u64>, window: u64, now: u64)
    requires
        forall|i: int| 0 <= i < spent.len() ==> now - (#[trigger] spent[i]) >= window,
    ensures
        counting(spent, now, window).len() == 0,
{
    let keep = |t: u64| counts(t, now, window);
    let kept = spent.filter(keep);
    if kept.len() > 0 {
        spent.lemma_filter_pred(keep, 0);
        let i = lemma_from_somewhere(spent, keep);
        assert(now - spent[i] >= window);
    }
}

proof fn lemma_from_somewhere(s: Seq<u64>, keep: spec_fn(u64) -> bool) -> (i: int)
    requires
        s.filter(keep).len() > 0,
    ensures
        0 <= i < s.len(),
        keep(s[i]),
    decreases s.len(),
{
    reveal(Seq::filter);
    if s.len() == 0 {
        0
    } else if keep(s.last()) {
        s.len() - 1
    } else {
        lemma_from_somewhere(s.drop_last(), keep)
    }
}

/// How many requests the program makes in an hour: four fifths of the quota,
/// and one at least.
pub fn budget_limit(config: &EumetnetConfig) -> (n: u32)
    ensures
        n == if blank(config.api_key@) {
            ANON_HOURLY_QUOTA * 4 / 5
        } else {
            AUTH_HOURLY_QUOTA * 4 / 5
        },
{
    let n: u32 = config.hourly_quota() * 4 / 5;
    if n < 1 {
        1
    } else {
        n
    }
}

/// How long to leave the gateway alone after a refusal that does not say.
pub const DEFAULT_COOLDOWN_SECS: u64 = 60;

/// How long at most: twenty minutes.
pub const MAX_COOLDOWN_SECS: u64 = 1200;

/// The seconds to leave the gateway alone after a refusal.
pub open spec fn cooldown(reset: Option<u64>) -> int {
    let secs = match reset {
        Some(s) => s as int,
        None => DEFAULT_COOLDOWN_SECS as int,
    };
    if secs < MAX_COOLDOWN_SECS {
        secs
    } else {
        MAX_COOLDOWN_SECS as int
    }
}

pub fn cooldown_secs(reset: Option<u64>) -> (secs: u64)
    ensures
        secs == cooldown(reset),
{
    let secs: u64 = match reset {
        Some(s) => s,
        None => DEFAULT_COOLDOWN_SECS,
    };
    if secs < MAX_COOLDOWN_SECS {
        secs
    } else {
        MAX_COOLDOWN_SECS
    }
}

/// Until when the gateway is left alone, on the program's clock.
#[derive(Debug, Clone, Copy, PartialEq, Eq)]
pub struct RateLimit {
    pub until: Option<u64>,
}

impl RateLimit {
    pub open spec fn blocks(self, now: u64) -> bool {
        self.until matches Some(t) && now < t
    }

    pub fn new() -> (r: RateLimit)
        ensures
            r.until is None,
    {
        RateLimit { until: None }
    }

    /// Whether the gateway is left alone at `now`.
    pub fn is_blocked(&self, now: u64) -> (r: bool)
        ensures
            r == self.blocks(now),
    {
        match self.until {
            Some(t) => now < t,
            None => false,
        }
    }

    /// The gateway refused at `now`.
    pub fn refused(&mut self, reset: Option<u64>, now: u64)
        requires
            now <= crate::radar::CLOCK_LIMIT,
        ensures
            final(self).until == Some((now + cooldown(reset) * 1_000_000_000) as u64),
    {
        self.until = Some(now + cooldown_secs(reset) * 1_000_000_000);
    }
}

/// After a refusal the gateway is left alone for as long as it asked, but no
/// longer than twenty minutes.
pub proof fn refusals_are_respected(reset: Option<u64>, now: u64, later: u64)
    requires
        now <= crate::radar::CLOCK_LIMIT,
        now <= later,
    ensures
        ({
            let r = RateLimit { until: Some((now + cooldown(reset) * 1_000_000_000) as u64) };
            &&& r.blocks(later) <==> later - now < cooldown(reset) * 1_000_000_000
            &&& later - now >= MAX_COOLDOWN_SECS * 1_000_000_000 ==> !r.blocks(later)
        }),
{
}

} // verus!
