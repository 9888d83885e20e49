//! Exponential backoff shared by everything that retries.

use std::time::Duration;

use vstd::arithmetic::mul::*;
use vstd::arithmetic::power2::*;
use vstd::prelude::*;

verus! {

/// The length of a duration in nanoseconds, as `Duration::as_nanos` gives it.
pub uninterp spec fn duration_nanos(d: Duration) -> nat;

/// The longest duration in nanoseconds.
pub const MAX_NANOS: u128 = 18446744073709551615999999999;

/// `Duration::as_nanos` returns the length in nanoseconds, at most that of
/// `Duration::MAX`.
pub assume_specification[ Duration::as_nanos ](d: &Duration) -> (n: u128)
    ensures
        n == duration_nanos(*d),
        n <= MAX_NANOS,
;

/// `Duration::new` makes the duration of so many seconds and nanoseconds.
pub assume_specification[ Duration::new ](secs: u64, nanos: u32) -> (d: Duration)
    requires
        nanos < 1_000_000_000,
    ensures
        duration_nanos(d) == secs * 1_000_000_000 + nanos,
;

/// How a fallible operation spaces its retries: `base * 2^attempt`, at most
/// `ceiling`, with an optional attempt count after which to give up.
#[derive(Debug, Clone, Copy, PartialEq, Eq)]
pub struct RetryPolicy {
    base: Duration,
    ceiling: Duration,
    give_up_after: Option<u32>,
}

pub open spec fn at_most(n: nat, limit: nat) -> nat {
    if n < limit {
        n
    } else {
        limit
    }
}

impl RetryPolicy {
    /// The first delay in nanoseconds.
    pub closed spec fn base_nanos(self) -> nat {
        duration_nanos(self.base)
    }

    /// The longest delay in nanoseconds.
    pub closed spec fn ceiling_nanos(self) -> nat {
        duration_nanos(self.ceiling)
    }

    pub closed spec fn limit(self) -> Option<u32> {
        self.give_up_after
    }

    /// The delay before retry `attempt`, counted from zero.
    pub open spec fn delay(self, attempt: nat) -> nat {
        at_most(self.base_nanos() * pow2(attempt), self.ceiling_nanos())
    }

    pub fn new(base: Duration, ceiling: Duration, give_up_after: Option<u32>) -> (p: RetryPolicy)
        ensures
            p.base_nanos() == duration_nanos(base),
            p.ceiling_nanos() == duration_nanos(ceiling),
            p.limit() == give_up_after,
    {
        RetryPolicy { base, ceiling, give_up_after }
    }

    /// Delay before retry `attempt`, counted from zero: `base * 2^attempt`,
    /// at most `ceiling`, for every attempt number.
    pub fn delay_for(&self, attempt: u32) -> (d: Duration)
        ensures
            duration_nanos(d) == self.delay(attempt as nat),
    {
        let ceiling: u128 = self.ceiling.as_nanos();
        let base: u128 = self.base.as_nanos();
        if base == 0 {
            proof {
                lemma_mul_basics(pow2(attempt as nat) as int);
            }
            return if 0 < ceiling {
                self.base
            } else {
                self.ceiling
            };
        }
        let mut n: u128 = base;
        let mut i: u32 = 0;
        proof {
            lemma2_to64();
        }
        while i < attempt && n < ceiling
            invariant
                i <= attempt,
                ceiling <= MAX_NANOS,
                base <= MAX_NANOS,
                n == base * pow2(i as nat),
                i > 0 ==> n < 2 * MAX_NANOS,
                base == self.base_nanos(),
                ceiling == self.ceiling_nanos(),
            decreases attempt - i,
        {
            proof {
                lemma_pow2_unfold((i + 1) as nat);
                assert(base * (2 * pow2(i as nat)) == 2 * (base * pow2(i as nat)))
                    by (nonlinear_arith);
            }
            n = n * 2;
            i = i + 1;
        }
        if n < ceiling {
            duration_of(n)
        } else {
            proof {
                if i < attempt {
                    lemma_pow2_strictly_increases(i as nat, attempt as nat);
                }
                assert(base * pow2(attempt as nat) >= base * pow2(i as nat)) by (nonlinear_arith)
                    requires
                        pow2(attempt as nat) >= pow2(i as nat),
                ;
            }
            self.ceiling
        }
    }

    /// True once `attempt` has reached the give-up count, if there is one.
    pub fn exhausted(&self, attempt: u32) -> (r: bool)
        ensures
            r == match self.limit() {
                Some(limit) => attempt >= limit,
                None => false,
            },
    {
        match self.give_up_after {
            Some(limit) => attempt >= limit,
            None => false,
        }
    }

    /// Twice `current`, at most `ceiling`: the next delay where a server's
    /// own wish replaced the sequence.
    pub fn double(&self, current: Duration) -> (d: Duration)
        ensures
            duration_nanos(d) == at_most(2 * duration_nanos(current), self.ceiling_nanos()),
    {
        let ceiling: u128 = self.ceiling.as_nanos();
        let n: u128 = current.as_nanos() * 2;
        if n < ceiling {
            duration_of(n)
        } else {
            self.ceiling
        }
    }
}

fn duration_of(n: u128) -> (d: Duration)
    requires
        n <= MAX_NANOS,
    ensures
        duration_nanos(d) == n,
{
    Duration::new((n / 1_000_000_000) as u64, (n % 1_000_000_000) as u32)
}

/// Delays never shrink from one attempt to the next, and never pass the
/// ceiling.
pub proof fn delays_grow_up_to_the_ceiling(p: RetryPolicy, a: nat, b: nat)
    requires
        a <= b,
    ensures
        p.delay(a) <= p.delay(b) <= p.ceiling_nanos(),
{
    if a < b {
        lemma_pow2_strictly_increases(a, b);
    }
    assert(p.base_nanos() * pow2(a) <= p.base_nanos() * pow2(b)) by (nonlinear_arith)
        requires
            pow2(a) <= pow2(b),
    ;
}

/// Each delay is the one before it, doubled, where the ceiling allows.
pub proof fn each_delay_doubles_the_last(p: RetryPolicy, attempt: nat)
    ensures
        p.delay(attempt + 1) == at_most(2 * p.delay(attempt), p.ceiling_nanos()),
{
    lemma_pow2_unfold(attempt + 1);
    assert(p.base_nanos() * (2 * pow2(attempt)) == 2 * (p.base_nanos() * pow2(attempt)))
        by (nonlinear_arith);
}

} // verus!
