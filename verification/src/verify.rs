//! Checking a candidate key against its service.

use vstd::prelude::*;
use vstd::string::*;

use crate::radar::{id_after, next_id};
use crate::tasks::{TaskKind, TaskMsg};

verus! {

/// What a check of a key showed.
#[derive(Debug, Clone, Copy, PartialEq, Eq, Structural)]
pub enum VerifyOutcome {
    /// The service accepted the key.
    Valid,
    /// The service rejected the key.
    Invalid,
    /// The service could not be asked, or gave an answer that says nothing of
    /// the key; being throttled is one.
    Unreachable,
}

pub open spec fn outcome_of(status: Option<u16>) -> VerifyOutcome {
    match status {
        Some(code) => if 200 <= code < 300 {
            VerifyOutcome::Valid
        } else if code == 401 || code == 403 {
            VerifyOutcome::Invalid
        } else {
            VerifyOutcome::Unreachable
        },
        None => VerifyOutcome::Unreachable,
    }
}

/// Classify a status code; none stands for a request that got no answer.
pub fn classify_verify_status(status: Option<u16>) -> (r: VerifyOutcome)
    ensures
        r == outcome_of(status),
{
    match status {
        Some(code) => {
            if 200 <= code && code < 300 {
                VerifyOutcome::Valid
            } else if code == 401 || code == 403 {
                VerifyOutcome::Invalid
            } else {
                VerifyOutcome::Unreachable
            }
        },
        None => VerifyOutcome::Unreachable,
    }
}

/// The service that a key is checked against.
#[derive(Debug, Clone, Copy, PartialEq, Eq, Structural)]
pub enum VerifyTarget {
    Eumetnet,
}

/// A finished check.
#[derive(Debug, Clone, Copy, PartialEq, Eq, Structural)]
pub struct VerifyResult {
    pub id: u64,
    pub target: VerifyTarget,
    pub outcome: VerifyOutcome,
}

/// The checks of keys: the latest one asked for, and what the last one showed.
#[derive(Debug)]
pub struct Verify {
    pub refresh_id: u64,
    pub running: bool,
    pub last_verify: Option<(VerifyTarget, VerifyOutcome)>,
}

/// How to run a check: abort the one before, report the two messages, and ask
/// the service about the key.
#[derive(Debug)]
pub struct VerifyPlan {
    pub abort: bool,
    pub id: u64,
    pub target: VerifyTarget,
    pub candidate_key: String,
    pub start: TaskMsg,
    /// A check has no measure of its progress.
    pub progress: TaskMsg,
}

impl Verify {
    /// The checks with the last outcome forgotten, where it is void.
    pub open spec fn voided(self, void: bool) -> Verify {
        if void {
            Verify { last_verify: None, ..self }
        } else {
            self
        }
    }

    pub fn new() -> (v: Verify)
        ensures
            v.refresh_id == 0,
            !v.running,
            v.last_verify is None,
    {
        Verify { refresh_id: 0, running: false, last_verify: None }
    }

    /// Ask for a check of a key, in place of one under way.
    pub fn request_verify(
        &mut self,
        target: VerifyTarget,
        candidate_key: String,
        task_id: u64,
    ) -> (plan: VerifyPlan)
        ensures
            final(self).refresh_id == next_id(old(self).refresh_id),
            final(self).running,
            final(self).last_verify == old(self).last_verify,
            plan.abort == old(self).running,
            plan.id == final(self).refresh_id,
            plan.target == target,
            plan.candidate_key == candidate_key,
            plan.start matches TaskMsg::Start { id, label, kind } && id == task_id && label@
                == "verify"@ && kind == TaskKind::Verify,
            plan.progress matches TaskMsg::Progress { id, action, fraction } && id == task_id
                && action@ == Seq::<char>::empty() && fraction is None,
    {
        let abort = self.running;
        self.refresh_id = id_after(self.refresh_id);
        self.running = true;
        VerifyPlan {
            abort,
            id: self.refresh_id,
            target,
            candidate_key,
            start: TaskMsg::Start {
                id: task_id,
                label: "verify".to_string(),
                kind: TaskKind::Verify,
            },
            progress: TaskMsg::Progress { id: task_id, action: String::new(), fraction: None },
        }
    }

    /// Take in a finished check; one that was superseded is ignored. Returns
    /// whether it was taken.
    pub fn drain_verify_result(&mut self, result: VerifyResult) -> (changed: bool)
        ensures
            changed == (result.id == old(self).refresh_id),
            *final(self) == if changed {
                Verify {
                    refresh_id: old(self).refresh_id,
                    running: false,
                    last_verify: Some((result.target, result.outcome)),
                }
            } else {
                *old(self)
            },
    {
        if result.id != self.refresh_id {
            return false;
        }
        self.running = false;
        self.last_verify = Some((result.target, result.outcome));
        true
    }
}

/// What the overlay is told when a check ends: it failed where the service
/// could not be asked.
pub fn verify_task_message(outcome: VerifyOutcome, task_id: u64) -> (m: TaskMsg)
    ensures
        match outcome {
            VerifyOutcome::Unreachable => m matches TaskMsg::Error { id, error } && id == task_id
                && error@ == "unreachable"@,
            _ => m == (TaskMsg::Complete { id: task_id }),
        },
{
    match outcome {
        VerifyOutcome::Unreachable => TaskMsg::Error {
            id: task_id,
            error: "unreachable".to_string(),
        },
        _ => TaskMsg::Complete { id: task_id },
    }
}

/// A key that was throttled is never reported as bad.
pub proof fn throttled_keys_are_not_bad(status: u16)
    requires
        status != 401,
        status != 403,
    ensures
        outcome_of(Some(status)) != VerifyOutcome::Invalid,
{
}

} // verus!
