//! The recovery manager: maps failure kinds to recovery strategies, keeps
//! the attempt history, and paces retries with exponential backoff (base
//! two time-units, factor one and a half, at most three attempts). The
//! manager only decides; performing an attempt and sleeping out a delay is
//! the runtime's business, reported back through
//! [`RecoveryManager::note_attempt_result`].

use vstd::prelude::*;
use vstd::arithmetic::power::pow;

verus! {

/// Most attempts made for one failure episode.
pub const MAX_RETRIES: u32 = 3;

/// One time-unit of the backoff schedule, in milliseconds.
pub const TIME_UNIT_MILLIS: u64 = 1000;

#[derive(Debug, Clone, Copy, PartialEq, Eq, Structural)]
pub enum FailureKind {
    NodeFailure,
    DataCorruption,
    NetworkPartition,
}

#[derive(Debug, Clone, Copy, PartialEq, Eq, Structural)]
pub enum RecoveryStrategy {
    NodeFailure,
    DataCorruption,
    NetworkPartition,
}

#[derive(Debug, Clone, Copy, PartialEq, Eq, Structural)]
pub enum RecoveryStatus {
    InProgress,
    Success,
    Failed,
}

#[derive(Debug, Clone)]
pub struct RecoveryAttempt {
    pub timestamp: u64,
    pub strategy: RecoveryStrategy,
    pub node_id: String,
    pub status: RecoveryStatus,
    pub retry_count: u32,
}

/// What the runtime must do next for the active failure episode.
#[derive(Debug, Clone, Copy, PartialEq, Eq, Structural)]
pub enum RecoveryStep {
    /// The episode ended in success.
    Completed,
    /// Sleep this many milliseconds, then try again.
    RetryAfter(u64),
    /// Retries are exhausted; the episode ended in failure.
    Exhausted,
}

/// The fixed mapping from failure kind to recovery strategy.
pub open spec fn spec_strategy_for(kind: FailureKind) -> RecoveryStrategy {
    match kind {
        FailureKind::NodeFailure => RecoveryStrategy::NodeFailure,
        FailureKind::DataCorruption => RecoveryStrategy::DataCorruption,
        FailureKind::NetworkPartition => RecoveryStrategy::NetworkPartition,
    }
}

/// Executable counterpart of [`spec_strategy_for`].
pub fn strategy_for(kind: FailureKind) -> (r: RecoveryStrategy)
    ensures
        r == spec_strategy_for(kind),
{
    match kind {
        FailureKind::NodeFailure => RecoveryStrategy::NodeFailure,
        FailureKind::DataCorruption => RecoveryStrategy::DataCorruption,
        FailureKind::NetworkPartition => RecoveryStrategy::NetworkPartition,
    }
}

/// The delay slept after the `retry`-th failed attempt: two time-units
/// times three halves to the `retry`, in milliseconds.
pub open spec fn spec_backoff_millis(retry: nat) -> int {
    2 * TIME_UNIT_MILLIS * pow(3, retry) / pow(2, retry)
}

/// Backoff timing: within the retry bound the schedule is exact — the
/// delay times `2^retry` equals `2 * 3^retry` time-units, so no rounding
/// hides in the integer division.
pub proof fn lemma_backoff_exact(retry: nat)
    requires
        retry <= MAX_RETRIES,
    ensures
        spec_backoff_millis(retry) * pow(2, retry) == 2 * TIME_UNIT_MILLIS * pow(3, retry),
{
    lemma_small_pows();
}

/// The concrete values of `3^e` and `2^e` for the retries in bound.
proof fn lemma_small_pows()
    ensures
        pow(3, 0) == 1 && pow(3, 1) == 3 && pow(3, 2) == 9 && pow(3, 3) == 27,
        pow(2, 0) == 1 && pow(2, 1) == 2 && pow(2, 2) == 4 && pow(2, 3) == 8,
{
    reveal_with_fuel(pow, 5);
    assert(pow(3, 0) == 1);
    assert(pow(3, 1) == 3);
    assert(pow(3, 2) == 9);
    assert(pow(3, 3) == 27);
    assert(pow(2, 0) == 1);
    assert(pow(2, 1) == 2);
    assert(pow(2, 2) == 4);
    assert(pow(2, 3) == 8);
}

/// Executable backoff schedule.
pub fn backoff_millis(retry: u32) -> (r: u64)
    requires
        retry <= MAX_RETRIES,
    ensures
        r == spec_backoff_millis(retry as nat),
{
    proof {
        lemma_small_pows();
    }
    if retry == 0 {
        2000
    } else if retry == 1 {
        3000
    } else if retry == 2 {
        4500
    } else {
        6750
    }
}

pub struct RecoveryManager {
    recovery_history: Vec<RecoveryAttempt>,
    max_retries: u32,
}

impl RecoveryManager {
    /// Recorded attempts never outrun the retry bound.
    pub open spec fn wf(self) -> bool {
        &&& self.spec_max_retries() == MAX_RETRIES
        &&& forall|i: int|
            0 <= i < self.spec_history().len() ==> (#[trigger] self.spec_history()[i]).retry_count
                <= MAX_RETRIES
        &&& forall|i: int|
            0 <= i < self.spec_history().len() && (#[trigger] self.spec_history()[i]).status
                == RecoveryStatus::InProgress ==> self.spec_history()[i].retry_count < MAX_RETRIES
    }

    /// All attempts, oldest first; the last one is the active episode.
    pub closed spec fn spec_history(self) -> Seq<RecoveryAttempt> {
        self.recovery_history@
    }

    pub closed spec fn spec_max_retries(self) -> u32 {
        self.max_retries
    }

    /// The active episode is still undecided.
    pub open spec fn spec_in_progress(self) -> bool {
        &&& self.spec_history().len() > 0
        &&& self.spec_history().last().status == RecoveryStatus::InProgress
    }

    pub fn new() -> (r: RecoveryManager)
        ensures
            r.wf(),
            r.spec_history() == Seq::<RecoveryAttempt>::empty(),
    {
        let r = RecoveryManager { recovery_history: Vec::new(), max_retries: MAX_RETRIES };
        proof {
            assert(r.spec_history() =~= Seq::<RecoveryAttempt>::empty());
        }
        r
    }

    /// Open a failure episode for `node_id`: record one attempt, in
    /// progress, under the strategy the failure kind maps to.
    pub fn handle_failure_kind(&mut self, kind: FailureKind, node_id: String, now: u64)
        requires
            old(self).wf(),
        ensures
            final(self).wf(),
            final(self).spec_history() == old(self).spec_history().push(
                RecoveryAttempt {
                    timestamp: now,
                    strategy: spec_strategy_for(kind),
                    node_id,
                    status: RecoveryStatus::InProgress,
                    retry_count: 0u32,
                },
            ),
            final(self).spec_in_progress(),
    {
        let strategy = strategy_for(kind);
        let attempt = RecoveryAttempt {
            timestamp: now,
            strategy,
            node_id,
            status: RecoveryStatus::InProgress,
            retry_count: 0,
        };
        self.recovery_history.push(attempt);
    }

    /// A node stopped answering: open a node-failure episode.
    pub fn handle_node_failure(&mut self, node_id: String, now: u64)
        requires
            old(self).wf(),
        ensures
            final(self).wf(),
            final(self).spec_history() == old(self).spec_history().push(
                RecoveryAttempt {
                    timestamp: now,
                    strategy: RecoveryStrategy::NodeFailure,
                    node_id,
                    status: RecoveryStatus::InProgress,
                    retry_count: 0u32,
                },
            ),
            final(self).spec_in_progress(),
    {
        self.handle_failure_kind(FailureKind::NodeFailure, node_id, now);
    }

    /// The runtime reports how the latest attempt went. Success closes the
    /// episode; a failure within the retry bound asks for another attempt
    /// after the exact backoff delay; past the bound the episode closes as
    /// failed. A closed episode's record never changes again.
    pub fn note_attempt_result(&mut self, success: bool) -> (r: RecoveryStep)
        requires
            old(self).wf(),
            old(self).spec_in_progress(),
        ensures
            final(self).wf(),
            final(self).spec_history().len() == old(self).spec_history().len(),
            final(self).spec_history().drop_last() == old(self).spec_history().drop_last(),
            ({
                let pre = old(self).spec_history().last();
                let post = final(self).spec_history().last();
                &&& post.timestamp == pre.timestamp
                &&& post.strategy == pre.strategy
                &&& post.node_id == pre.node_id
                &&& if success {
                    &&& r == RecoveryStep::Completed
                    &&& post.status == RecoveryStatus::Success
                    &&& post.retry_count == pre.retry_count
                } else if pre.retry_count + 1 < MAX_RETRIES {
                    &&& r == RecoveryStep::RetryAfter(
                        spec_backoff_millis((pre.retry_count + 1) as nat) as u64,
                    )
                    &&& post.status == RecoveryStatus::InProgress
                    &&& post.retry_count == pre.retry_count + 1
                } else {
                    &&& r == RecoveryStep::Exhausted
                    &&& post.status == RecoveryStatus::Failed
                    &&& post.retry_count == MAX_RETRIES
                }
            }),
    {
        let n = self.recovery_history.len();
        let last = &self.recovery_history[n - 1];
        if success {
            let updated = RecoveryAttempt {
                timestamp: last.timestamp,
                strategy: last.strategy,
                node_id: last.node_id.clone(),
                status: RecoveryStatus::Success,
                retry_count: last.retry_count,
            };
            self.recovery_history[n - 1] = updated;
            proof {
                assert(self.spec_history().drop_last() =~= old(self).spec_history().drop_last());
            }
            RecoveryStep::Completed
        } else {
            let retry = last.retry_count + 1;
            let status = if retry < MAX_RETRIES {
                RecoveryStatus::InProgress
            } else {
                RecoveryStatus::Failed
            };
            let updated = RecoveryAttempt {
                timestamp: last.timestamp,
                strategy: last.strategy,
                node_id: last.node_id.clone(),
                status,
                retry_count: retry,
            };
            self.recovery_history[n - 1] = updated;
            proof {
                assert(self.spec_history().drop_last() =~= old(self).spec_history().drop_last());
            }
            if retry < MAX_RETRIES {
                RecoveryStep::RetryAfter(backoff_millis(retry))
            } else {
                RecoveryStep::Exhausted
            }
        }
    }

    pub fn history_len(&self) -> (r: usize)
        ensures
            r == self.spec_history().len(),
    {
        self.recovery_history.len()
    }

    /// The attempt at position `i`, oldest first.
    pub fn attempt_at(&self, i: usize) -> (r: &RecoveryAttempt)
        requires
            i < self.spec_history().len(),
        ensures
            *r == self.spec_history()[i as int],
    {
        &self.recovery_history[i]
    }
}

} // verus!
