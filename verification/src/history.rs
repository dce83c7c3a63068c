//! The history log: a time-ordered FIFO ring buffer of cache operations,
//! bounded at `max_entries` (the oldest record falls out first). The log
//! decides when a snapshot is due; reading and writing the snapshot file is
//! the caller's business, through [`CacheHistory::entry_at`] and
//! [`CacheHistory::recover`].

use std::collections::VecDeque;
use vstd::prelude::*;
use crate::clock::{spec_elapsed, elapsed};

verus! {

/// Milliseconds between two snapshots of the log.
pub const BACKUP_INTERVAL_MILLIS: u64 = 300000;

#[derive(Debug, Clone, Copy, PartialEq, Eq, Structural)]
pub enum CacheOperation {
    Insert,
    Get,
    Remove,
    Invalidate,
    Recovery,
}

#[derive(Debug, Clone)]
pub struct CacheHistoryEntry {
    pub timestamp: u64,
    pub operation: CacheOperation,
    pub key: String,
    pub value_size: usize,
    pub success: bool,
}

/// The log can hold `max` entries, but at least one: a record call always
/// leaves its own entry behind, even with a zero bound.
pub open spec fn spec_cap(max: nat) -> nat {
    if max == 0 {
        1
    } else {
        max
    }
}

/// One record applied to the log: the oldest entry falls out of a full
/// buffer, then the new entry is appended.
pub open spec fn spec_record_step(
    log: Seq<CacheHistoryEntry>,
    e: CacheHistoryEntry,
    max: nat,
) -> Seq<CacheHistoryEntry> {
    let trimmed = if log.len() >= max && log.len() > 0 {
        log.drop_first()
    } else {
        log
    };
    trimmed.push(e)
}

/// A whole run of records applied in order to an initial log.
pub open spec fn spec_record_fold(
    init: Seq<CacheHistoryEntry>,
    es: Seq<CacheHistoryEntry>,
    max: nat,
) -> Seq<CacheHistoryEntry>
    decreases es.len(),
{
    if es.len() == 0 {
        init
    } else {
        spec_record_step(spec_record_fold(init, es.drop_last(), max), es.last(), max)
    }
}

/// The newest `max` entries of `s`, in order.
pub open spec fn spec_tail(s: Seq<CacheHistoryEntry>, max: nat) -> Seq<CacheHistoryEntry> {
    if s.len() <= max {
        s
    } else {
        s.skip(s.len() - max)
    }
}

/// Folding records over a log that starts within its bound keeps exactly
/// the newest entries of everything seen, in order.
proof fn lemma_fold_is_tail(init: Seq<CacheHistoryEntry>, es: Seq<CacheHistoryEntry>, max: nat)
    requires
        max >= 1,
        init.len() <= max,
    ensures
        spec_record_fold(init, es, max) == spec_tail(init + es, max),
        spec_record_fold(init, es, max).len() <= max,
    decreases es.len(),
{
    if es.len() == 0 {
        assert(init + es =~= init);
    } else {
        let e = es.last();
        lemma_fold_is_tail(init, es.drop_last(), max);
        let s = init + es.drop_last();
        let t = spec_tail(s, max);
        assert(spec_record_fold(init, es, max) == spec_record_step(t, e, max));
        if s.len() < max {
            assert(t == s);
            assert(spec_record_step(t, e, max) =~= spec_tail(init + es, max)) by {
                assert(init + es =~= s.push(e));
            }
        } else {
            assert(t =~= s.skip(s.len() - max));
            assert(t.len() == max);
            assert(spec_record_step(t, e, max) == t.drop_first().push(e));
            assert(init + es =~= s.push(e));
            assert((init + es).len() == s.len() + 1);
            assert(spec_tail(init + es, max) =~= (init + es).skip(s.len() + 1 - max));
            assert(t.drop_first().push(e) =~= (init + es).skip(s.len() + 1 - max));
        }
    }
}

/// History bound: after `N >= max >= 1` records into an initially empty
/// log, the log holds exactly `max` entries: the newest `max`, in order.
pub proof fn lemma_history_bound(es: Seq<CacheHistoryEntry>, max: nat)
    requires
        max >= 1,
        es.len() >= max,
    ensures
        spec_record_fold(Seq::empty(), es, max) == es.skip(es.len() - max),
        spec_record_fold(Seq::empty(), es, max).len() == max,
{
    lemma_fold_is_tail(Seq::empty(), es, max);
    assert(Seq::empty() + es =~= es);
}

pub struct CacheHistory {
    entries: VecDeque<CacheHistoryEntry>,
    max_entries: usize,
    log_file: String,
    last_backup: u64,
    backup_interval: u64,
}

/// Operation counts over the log, split by kind and by success.
#[derive(Debug, Default)]
pub struct CacheHistoryStats {
    pub inserts: u64,
    pub gets: u64,
    pub removes: u64,
    pub invalidations: u64,
    pub recoveries: u64,
    pub successful_operations: u64,
    pub failed_operations: u64,
}

/// How many of the listed entries carry the given operation.
pub open spec fn spec_op_count(s: Seq<CacheHistoryEntry>, op: CacheOperation) -> int
    decreases s.len(),
{
    if s.len() == 0 {
        0
    } else {
        spec_op_count(s.drop_last(), op) + (if s.last().operation == op {
            1int
        } else {
            0int
        })
    }
}

/// How many of the listed entries succeeded.
pub open spec fn spec_success_count(s: Seq<CacheHistoryEntry>) -> int
    decreases s.len(),
{
    if s.len() == 0 {
        0
    } else {
        spec_success_count(s.drop_last()) + (if s.last().success {
            1int
        } else {
            0int
        })
    }
}

impl CacheHistory {
    /// The recorded entries, oldest first.
    pub closed spec fn log(self) -> Seq<CacheHistoryEntry> {
        self.entries@
    }

    pub closed spec fn spec_max_entries(self) -> nat {
        self.max_entries as nat
    }

    pub closed spec fn spec_log_file(self) -> Seq<char> {
        self.log_file@
    }

    pub closed spec fn spec_last_backup(self) -> u64 {
        self.last_backup
    }

    pub closed spec fn spec_backup_interval(self) -> u64 {
        self.backup_interval
    }

    /// The log never outgrows its bound.
    pub open spec fn wf(self) -> bool {
        self.log().len() <= spec_cap(self.spec_max_entries())
    }

    pub fn new(max_entries: usize, log_file: &str, now: u64) -> (r: CacheHistory)
        ensures
            r.wf(),
            r.log() == Seq::<CacheHistoryEntry>::empty(),
            r.spec_max_entries() == max_entries,
            r.spec_log_file() == log_file@,
            r.spec_last_backup() == now,
            r.spec_backup_interval() == BACKUP_INTERVAL_MILLIS,
    {
        let r = CacheHistory {
            entries: VecDeque::new(),
            max_entries,
            log_file: log_file.to_owned(),
            last_backup: now,
            backup_interval: BACKUP_INTERVAL_MILLIS,
        };
        proof {
            assert(r.log() =~= Seq::<CacheHistoryEntry>::empty());
        }
        r
    }

    /// Append one operation record, dropping the oldest entry first when
    /// the buffer is full. Returns whether a snapshot fell due, as
    /// [`CacheHistory::maybe_backup`] says.
    pub fn record(
        &mut self,
        operation: CacheOperation,
        key: String,
        value_size: usize,
        success: bool,
        now: u64,
    ) -> (backup_due: bool)
        requires
            old(self).wf(),
        ensures
            final(self).wf(),
            final(self).log() == spec_record_step(
                old(self).log(),
                CacheHistoryEntry { timestamp: now, operation, key, value_size, success },
                old(self).spec_max_entries(),
            ),
            final(self).spec_max_entries() == old(self).spec_max_entries(),
            final(self).spec_log_file() == old(self).spec_log_file(),
            final(self).spec_backup_interval() == old(self).spec_backup_interval(),
            backup_due == (spec_elapsed(old(self).spec_last_backup(), now) >= old(
                self,
            ).spec_backup_interval()),
            final(self).spec_last_backup() == (if backup_due {
                now
            } else {
                old(self).spec_last_backup()
            }),
    {
        let entry = CacheHistoryEntry { timestamp: now, operation, key, value_size, success };
        if self.entries.len() >= self.max_entries && self.entries.len() > 0 {
            let _dropped = self.entries.pop_front();
        }
        self.entries.push_back(entry);
        self.maybe_backup(now)
    }

    /// Whether a snapshot is due at `now`: at least the backup interval has
    /// passed since the last one. When it is, the snapshot clock resets and
    /// the caller is expected to persist the log.
    pub fn maybe_backup(&mut self, now: u64) -> (r: bool)
        ensures
            final(self).log() == old(self).log(),
            final(self).spec_max_entries() == old(self).spec_max_entries(),
            final(self).spec_log_file() == old(self).spec_log_file(),
            final(self).spec_backup_interval() == old(self).spec_backup_interval(),
            r == (spec_elapsed(old(self).spec_last_backup(), now) >= old(
                self,
            ).spec_backup_interval()),
            final(self).spec_last_backup() == (if r {
                now
            } else {
                old(self).spec_last_backup()
            }),
    {
        if elapsed(self.last_backup, now) >= self.backup_interval {
            self.last_backup = now;
            true
        } else {
            false
        }
    }

    /// Replace the buffer with a recovered snapshot: `None` (no snapshot
    /// on disk) leaves the log as it is; `Some` installs the snapshot,
    /// keeping its newest entries when it exceeds the bound.
    pub fn recover(&mut self, snapshot: Option<Vec<CacheHistoryEntry>>)
        requires
            old(self).wf(),
        ensures
            final(self).wf(),
            final(self).spec_max_entries() == old(self).spec_max_entries(),
            final(self).spec_log_file() == old(self).spec_log_file(),
            final(self).spec_last_backup() == old(self).spec_last_backup(),
            final(self).spec_backup_interval() == old(self).spec_backup_interval(),
            match snapshot {
                None => final(self).log() == old(self).log(),
                Some(v) => final(self).log() == spec_tail(
                    v@,
                    spec_cap(old(self).spec_max_entries()),
                ),
            },
    {
        let mut v = match snapshot {
            None => {
                return ;
            },
            Some(v) => v,
        };
        let ghost v0 = v@;
        let cap: usize = if self.max_entries == 0 {
            1
        } else {
            self.max_entries
        };
        let mut dq: VecDeque<CacheHistoryEntry> = VecDeque::new();
        while v.len() > 0 && dq.len() < cap
            invariant
                cap == spec_cap(self.spec_max_entries()),
                v@.len() <= v0.len(),
                forall|j: int| 0 <= j < v@.len() ==> v@[j] == v0[j],
                dq@.len() == v0.len() - v@.len(),
                forall|j: int| 0 <= j < dq@.len() ==> dq@[j] == v0[v@.len() + j],
                dq@.len() <= cap,
            decreases v.len(),
        {
            let e = match v.pop() {
                Some(e) => e,
                None => {
                    return ;
                },
            };
            dq.push_front(e);
        }
        self.entries = dq;
        proof {
            if v@.len() == 0 {
                assert(self.log() =~= v0);
            } else {
                assert(self.log().len() == cap);
                assert(v0.len() > cap);
                assert(self.log() =~= v0.skip(v0.len() - cap));
            }
        }
    }

    pub fn len(&self) -> (r: usize)
        ensures
            r == self.log().len(),
    {
        self.entries.len()
    }

    /// The entry at position `i`, oldest first; the caller walks these to
    /// persist a snapshot.
    pub fn entry_at(&self, i: usize) -> (r: &CacheHistoryEntry)
        requires
            i < self.log().len(),
        ensures
            *r == self.log()[i as int],
    {
        &self.entries[i]
    }

    /// The path the snapshot is kept under.
    pub fn log_path(&self) -> (r: &str)
        ensures
            r@ == self.spec_log_file(),
    {
        self.log_file.as_str()
    }

    /// Count the logged operations by kind and by success.
    pub fn get_stats(&self) -> (r: CacheHistoryStats)
        ensures
            r.inserts == spec_op_count(self.log(), CacheOperation::Insert),
            r.gets == spec_op_count(self.log(), CacheOperation::Get),
            r.removes == spec_op_count(self.log(), CacheOperation::Remove),
            r.invalidations == spec_op_count(self.log(), CacheOperation::Invalidate),
            r.recoveries == spec_op_count(self.log(), CacheOperation::Recovery),
            r.successful_operations == spec_success_count(self.log()),
            r.failed_operations == self.log().len() - spec_success_count(self.log()),
    {
        let n = self.entries.len();
        let mut stats = CacheHistoryStats {
            inserts: 0,
            gets: 0,
            removes: 0,
            invalidations: 0,
            recoveries: 0,
            successful_operations: 0,
            failed_operations: 0,
        };
        let mut i: usize = 0;
        proof {
            lemma_counts_bounded(self.log().subrange(0, 0), CacheOperation::Insert);
        }
        while i < n
            invariant
                n == self.log().len(),
                i <= n,
                stats.inserts == spec_op_count(self.log().subrange(0, i as int), CacheOperation::Insert),
                stats.gets == spec_op_count(self.log().subrange(0, i as int), CacheOperation::Get),
                stats.removes == spec_op_count(self.log().subrange(0, i as int), CacheOperation::Remove),
                stats.invalidations == spec_op_count(
                    self.log().subrange(0, i as int),
                    CacheOperation::Invalidate,
                ),
                stats.recoveries == spec_op_count(
                    self.log().subrange(0, i as int),
                    CacheOperation::Recovery,
                ),
                stats.successful_operations == spec_success_count(self.log().subrange(0, i as int)),
                stats.failed_operations == i - spec_success_count(self.log().subrange(0, i as int)),
                stats.inserts <= i && stats.gets <= i && stats.removes <= i
                    && stats.invalidations <= i && stats.recoveries <= i
                    && stats.successful_operations <= i && stats.failed_operations <= i,
            decreases n - i,
        {
            proof {
                let pre = self.log().subrange(0, i as int);
                let post = self.log().subrange(0, i as int + 1);
                assert(post.drop_last() =~= pre);
                assert(post.last() == self.log()[i as int]);
            }
            let e = &self.entries[i];
            match e.operation {
                CacheOperation::Insert => {
                    stats.inserts = stats.inserts + 1;
                },
                CacheOperation::Get => {
                    stats.gets = stats.gets + 1;
                },
                CacheOperation::Remove => {
                    stats.removes = stats.removes + 1;
                },
                CacheOperation::Invalidate => {
                    stats.invalidations = stats.invalidations + 1;
                },
                CacheOperation::Recovery => {
                    stats.recoveries = stats.recoveries + 1;
                },
            }
            if e.success {
                stats.successful_operations = stats.successful_operations + 1;
            } else {
                stats.failed_operations = stats.failed_operations + 1;
            }
            i = i + 1;
        }
        proof {
            assert(self.log().subrange(0, n as int) =~= self.log());
        }
        stats
    }
}

/// Counts over a log are nonnegative and bounded by its length.
proof fn lemma_counts_bounded(s: Seq<CacheHistoryEntry>, op: CacheOperation)
    ensures
        0 <= spec_op_count(s, op) <= s.len(),
        0 <= spec_success_count(s) <= s.len(),
    decreases s.len(),
{
    if s.len() > 0 {
        lemma_counts_bounded(s.drop_last(), op);
    }
}

} // verus!
