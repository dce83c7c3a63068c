//! The enhanced cache: the entry store joined with the access-pattern
//! tracker and the history log. Reads consult the store and record the
//! access; writes log themselves and, on a full store, first evict every
//! key whose predicted next access lies in the past (or that has no
//! pattern at all) — so `max_size` is a soft bound: when no eviction
//! candidate exists the store may exceed it until the next cycle.

use vstd::prelude::*;
use vstd::layout::size_of;
use crate::clock::{spec_elapsed, spec_inc, inc};
use crate::history::{
    spec_record_step, CacheHistory, CacheHistoryEntry, CacheHistoryStats, CacheOperation,
};
use crate::pattern::{AccessPattern, AccessTracker};
use crate::store::{expired_at, spec_expired, CacheEntry};
use crate::table::Table;

verus! {

/// Bound of the enhanced cache's history log.
pub const HISTORY_BOUND: usize = 1000;

/// The log grew by exactly one record with the given shape (its key is a
/// fresh `String` whose characters are `key`).
pub open spec fn spec_logged(
    pre: Seq<CacheHistoryEntry>,
    post: Seq<CacheHistoryEntry>,
    max: nat,
    timestamp: u64,
    op: CacheOperation,
    key: Seq<char>,
    value_size: nat,
    success: bool,
) -> bool {
    exists|e: CacheHistoryEntry|
        {
            &&& e.timestamp == timestamp
            &&& e.operation == op
            &&& e.key@ == key
            &&& e.value_size == value_size
            &&& e.success == success
            &&& post == #[trigger] spec_record_step(pre, e, max)
        }
}

pub struct EnhancedCache<T> {
    entries: Table<CacheEntry<T>>,
    access_patterns: AccessTracker,
    history: CacheHistory,
    max_size: usize,
    ttl: u64,
    hit_count: u64,
    miss_count: u64,
    compression_enabled: bool,
    predictive_caching: bool,
    backup_pending: bool,
}

/// Size, counters and history counts of an [`EnhancedCache`]; the hit
/// ratio is `hit_count` over `hit_count + miss_count`, left to the caller
/// to divide.
#[derive(Debug)]
pub struct EnhancedCacheStats {
    pub size: usize,
    pub hit_count: u64,
    pub miss_count: u64,
    pub history_stats: CacheHistoryStats,
    pub predictive_hits: usize,
}

impl<T: Clone> EnhancedCache<T> {
    pub closed spec fn wf(self) -> bool {
        &&& self.entries.wf()
        &&& self.access_patterns.wf()
        &&& self.history.wf()
    }

    /// The entry stored under `k`, if any.
    pub closed spec fn spec_entry(self, k: Seq<char>) -> Option<CacheEntry<T>> {
        self.entries.spec_get(k)
    }

    /// The access pattern tracked for `k`, if any.
    pub closed spec fn spec_pattern(self, k: Seq<char>) -> Option<AccessPattern> {
        self.access_patterns.spec_get(k)
    }

    pub closed spec fn size(self) -> nat {
        self.entries.len()
    }

    pub closed spec fn spec_max_size(self) -> nat {
        self.max_size as nat
    }

    /// Time-to-live in milliseconds.
    pub closed spec fn spec_ttl(self) -> u64 {
        self.ttl
    }

    pub closed spec fn hits(self) -> u64 {
        self.hit_count
    }

    pub closed spec fn misses(self) -> u64 {
        self.miss_count
    }

    /// The owned history log.
    pub closed spec fn spec_history(self) -> CacheHistory {
        self.history
    }

    /// Whether a history snapshot fell due and has not been collected yet.
    pub closed spec fn spec_backup_pending(self) -> bool {
        self.backup_pending
    }

    /// How many tracked keys carry a prediction.
    pub closed spec fn spec_predicted_total(self) -> int {
        self.access_patterns.spec_predicted_total()
    }

    /// A key the next capacity eviction would remove: one with no tracked
    /// pattern, no prediction, or a prediction that lies in the past.
    pub open spec fn spec_candidate(self, k: Seq<char>, now: u64) -> bool {
        match self.spec_pattern(k) {
            Some(p) => match p.predicted_next_access {
                Some(t) => t < now,
                None => true,
            },
            None => true,
        }
    }

    /// Everything but entries, patterns, counters and the log is fixed.
    pub open spec fn spec_config_unchanged(pre: Self, post: Self) -> bool {
        &&& post.spec_max_size() == pre.spec_max_size()
        &&& post.spec_ttl() == pre.spec_ttl()
        &&& post.spec_history().spec_max_entries() == pre.spec_history().spec_max_entries()
        &&& post.spec_history().spec_log_file() == pre.spec_history().spec_log_file()
        &&& post.spec_history().spec_backup_interval() == pre.spec_history().spec_backup_interval()
    }

    /// `ttl_seconds` is converted to milliseconds, so it must leave that
    /// product inside `u64`.
    pub fn new(max_size: usize, ttl_seconds: u64, now: u64) -> (r: EnhancedCache<T>)
        requires
            ttl_seconds <= u64::MAX / 1000,
        ensures
            r.wf(),
            r.size() == 0,
            forall|k: Seq<char>| r.spec_entry(k) is None,
            forall|k: Seq<char>| r.spec_pattern(k) is None,
            r.spec_max_size() == max_size,
            r.spec_ttl() == ttl_seconds * 1000,
            r.hits() == 0,
            r.misses() == 0,
            r.spec_history().log() == Seq::<CacheHistoryEntry>::empty(),
            r.spec_history().spec_max_entries() == HISTORY_BOUND,
            r.spec_history().spec_last_backup() == now,
            !r.spec_backup_pending(),
    {
        EnhancedCache {
            entries: Table::new(),
            access_patterns: AccessTracker::new(),
            history: CacheHistory::new(HISTORY_BOUND, "cache_history.json", now),
            max_size,
            ttl: ttl_seconds * 1000,
            hit_count: 0,
            miss_count: 0,
            compression_enabled: true,
            predictive_caching: true,
            backup_pending: false,
        }
    }

    /// Record an access of `key` in the tracker, the history log and the
    /// hit/miss counters; entries are untouched.
    fn record_access(&mut self, key: &str, success: bool, now: u64)
        requires
            old(self).wf(),
        ensures
            final(self).wf(),
            Self::spec_config_unchanged(*old(self), *final(self)),
            forall|k2: Seq<char>| final(self).spec_entry(k2) == old(self).spec_entry(k2),
            final(self).size() == old(self).size(),
            final(self).spec_pattern(key@) matches Some(p) && p.matches_step(
                old(self).spec_pattern(key@),
                now,
            ),
            forall|k2: Seq<char>|
                k2 != key@ ==> final(self).spec_pattern(k2) == old(self).spec_pattern(k2),
            spec_logged(
                old(self).spec_history().log(),
                final(self).spec_history().log(),
                old(self).spec_history().spec_max_entries(),
                now,
                if success {
                    CacheOperation::Get
                } else {
                    CacheOperation::Invalidate
                },
                key@,
                0,
                success,
            ),
            final(self).hits() == (if success {
                spec_inc(old(self).hits())
            } else {
                old(self).hits()
            }),
            final(self).misses() == (if success {
                old(self).misses()
            } else {
                spec_inc(old(self).misses())
            }),
            final(self).spec_history().spec_last_backup() == (if spec_elapsed(
                old(self).spec_history().spec_last_backup(),
                now,
            ) >= old(self).spec_history().spec_backup_interval() {
                now
            } else {
                old(self).spec_history().spec_last_backup()
            }),
            final(self).spec_backup_pending() == (old(self).spec_backup_pending() || spec_elapsed(
                old(self).spec_history().spec_last_backup(),
                now,
            ) >= old(self).spec_history().spec_backup_interval()),
    {
        self.access_patterns.record(key, now);
        let op = if success {
            CacheOperation::Get
        } else {
            CacheOperation::Invalidate
        };
        let ghost pre_log = self.history.log();
        let logged = CacheHistoryEntry {
            timestamp: now,
            operation: op,
            key: key.to_owned(),
            value_size: 0,
            success,
        };
        let ghost logged_view = logged;
        let due = self.history.record(op, logged.key, 0, success, now);
        proof {
            assert(self.history.log() == spec_record_step(
                pre_log,
                logged_view,
                old(self).spec_history().spec_max_entries(),
            ));
        }
        if due {
            self.backup_pending = true;
        }
        if success {
            self.hit_count = inc(self.hit_count);
        } else {
            self.miss_count = inc(self.miss_count);
        }
    }

    /// Read `key` at time `now`. A live entry answers with a copy of its
    /// value and counts as a hit; a missing or expired one answers nothing
    /// and counts as a miss, and an expired entry is deleted. Either way
    /// the access is recorded.
    pub fn get(&mut self, key: &str, now: u64) -> (r: Option<T>)
        requires
            old(self).wf(),
        ensures
            final(self).wf(),
            Self::spec_config_unchanged(*old(self), *final(self)),
            forall|k2: Seq<char>|
                k2 != key@ ==> final(self).spec_entry(k2) == old(self).spec_entry(k2),
            forall|k2: Seq<char>|
                k2 != key@ ==> final(self).spec_pattern(k2) == old(self).spec_pattern(k2),
            final(self).spec_pattern(key@) matches Some(p) && p.matches_step(
                old(self).spec_pattern(key@),
                now,
            ),
            match old(self).spec_entry(key@) {
                Some(e) => {
                    if spec_expired(e.created_at, old(self).spec_ttl(), now) {
                        &&& r is None
                        &&& final(self).spec_entry(key@) is None
                        &&& final(self).size() == old(self).size() - 1
                    } else {
                        &&& r matches Some(v) && cloned(e.value, v)
                        &&& final(self).spec_entry(key@) == old(self).spec_entry(key@)
                        &&& final(self).size() == old(self).size()
                    }
                },
                None => {
                    &&& r is None
                    &&& final(self).spec_entry(key@) is None
                    &&& final(self).size() == old(self).size()
                },
            },
            ({
                let hit = old(self).spec_entry(key@) matches Some(e) && !spec_expired(
                    e.created_at,
                    old(self).spec_ttl(),
                    now,
                );
                &&& spec_logged(
                    old(self).spec_history().log(),
                    final(self).spec_history().log(),
                    old(self).spec_history().spec_max_entries(),
                    now,
                    if hit {
                        CacheOperation::Get
                    } else {
                        CacheOperation::Invalidate
                    },
                    key@,
                    0,
                    hit,
                )
                &&& final(self).hits() == (if hit {
                    spec_inc(old(self).hits())
                } else {
                    old(self).hits()
                })
                &&& final(self).misses() == (if hit {
                    old(self).misses()
                } else {
                    spec_inc(old(self).misses())
                })
            }),
            ({
                let due = spec_elapsed(old(self).spec_history().spec_last_backup(), now) >= old(
                    self,
                ).spec_history().spec_backup_interval();
                &&& final(self).spec_history().spec_last_backup() == (if due {
                    now
                } else {
                    old(self).spec_history().spec_last_backup()
                })
                &&& final(self).spec_backup_pending() == (old(self).spec_backup_pending() || due)
            }),
    {
        let r = self.get_from_cache(key, now);
        let hit = r.is_some();
        self.record_access(key, hit, now);
        r
    }

    /// The store half of a read: answer from a live entry, delete an
    /// expired one.
    fn get_from_cache(&mut self, key: &str, now: u64) -> (r: Option<T>)
        requires
            old(self).wf(),
        ensures
            final(self).wf(),
            Self::spec_config_unchanged(*old(self), *final(self)),
            final(self).hits() == old(self).hits(),
            final(self).misses() == old(self).misses(),
            final(self).spec_history() == old(self).spec_history(),
            final(self).spec_backup_pending() == old(self).spec_backup_pending(),
            forall|k2: Seq<char>| final(self).spec_pattern(k2) == old(self).spec_pattern(k2),
            forall|k2: Seq<char>|
                k2 != key@ ==> final(self).spec_entry(k2) == old(self).spec_entry(k2),
            match old(self).spec_entry(key@) {
                Some(e) => {
                    if spec_expired(e.created_at, old(self).spec_ttl(), now) {
                        &&& r is None
                        &&& final(self).spec_entry(key@) is None
                        &&& final(self).size() == old(self).size() - 1
                    } else {
                        &&& r matches Some(v) && cloned(e.value, v)
                        &&& final(self).spec_entry(key@) == old(self).spec_entry(key@)
                        &&& final(self).size() == old(self).size()
                    }
                },
                None => {
                    &&& r is None
                    &&& final(self).spec_entry(key@) is None
                    &&& final(self).size() == old(self).size()
                },
            },
    {
        let expired = match self.entries.get_ref(key) {
            Some(e) => expired_at(e.created_at, self.ttl, now),
            None => false,
        };
        if expired {
            self.entries.remove(key);
            return None;
        }
        match self.entries.get_ref(key) {
            Some(e) => Some(e.value.clone()),
            None => None,
        }
    }

    /// Write `value` under `key` at `now`. A full store first evicts every
    /// eviction candidate; the write is logged with the value's size.
    pub fn insert(&mut self, key: String, value: T, now: u64)
        requires
            old(self).wf(),
        ensures
            final(self).wf(),
            Self::spec_config_unchanged(*old(self), *final(self)),
            final(self).hits() == old(self).hits(),
            final(self).misses() == old(self).misses(),
            final(self).spec_entry(key@) == Some(
                CacheEntry { value, created_at: now, last_accessed: now, access_count: 0u64 },
            ),
            // No eviction below capacity: everything else is untouched.
            old(self).size() < old(self).spec_max_size() ==> {
                &&& forall|k2: Seq<char>|
                    k2 != key@ ==> final(self).spec_entry(k2) == old(self).spec_entry(k2)
                &&& forall|k2: Seq<char>|
                    final(self).spec_pattern(k2) == old(self).spec_pattern(k2)
                &&& final(self).size() == old(self).size() + (if old(self).spec_entry(key@)
                    is Some {
                    0int
                } else {
                    1int
                })
            },
            // At capacity: every eviction candidate goes, with its pattern;
            // everything else stays.
            old(self).size() >= old(self).spec_max_size() ==> {
                &&& forall|k2: Seq<char>|
                    k2 != key@ && #[trigger] old(self).spec_entry(k2) is Some
                        ==> if old(self).spec_candidate(k2, now) {
                        final(self).spec_entry(k2) is None
                    } else {
                        final(self).spec_entry(k2) == old(self).spec_entry(k2)
                    }
                &&& forall|k2: Seq<char>|
                    k2 != key@ && old(self).spec_entry(k2) is None ==> final(self).spec_entry(
                        k2,
                    ) is None
                &&& forall|k2: Seq<char>|
                    (#[trigger] old(self).spec_entry(k2) is Some && old(self).spec_candidate(
                        k2,
                        now,
                    )) ==> final(self).spec_pattern(k2) is None
                &&& forall|k2: Seq<char>|
                    !(old(self).spec_entry(k2) is Some && old(self).spec_candidate(k2, now))
                        ==> final(self).spec_pattern(k2) == old(self).spec_pattern(k2)
                &&& final(self).size() <= old(self).size() + 1
            },
            // Soft capacity bound: an insert that evicted at least one
            // candidate does not grow the store.
            (old(self).size() >= old(self).spec_max_size() && exists|k2: Seq<char>|
                #[trigger] old(self).spec_entry(k2) is Some && old(self).spec_candidate(k2, now))
                ==> final(self).size() <= old(self).size(),
            spec_logged(
                old(self).spec_history().log(),
                final(self).spec_history().log(),
                old(self).spec_history().spec_max_entries(),
                now,
                CacheOperation::Insert,
                key@,
                size_of::<T>(),
                true,
            ),
            ({
                let due = spec_elapsed(old(self).spec_history().spec_last_backup(), now) >= old(
                    self,
                ).spec_history().spec_backup_interval();
                &&& final(self).spec_history().spec_last_backup() == (if due {
                    now
                } else {
                    old(self).spec_history().spec_last_backup()
                })
                &&& final(self).spec_backup_pending() == (old(self).spec_backup_pending() || due)
            }),
    {
        if self.entries.length() >= self.max_size {
            self.evict_entries(now);
        }
        let value = self.compress_value(value);
        let ghost key_view = key@;
        let ghost pre_log = self.history.log();
        let entry = CacheEntry { value, created_at: now, last_accessed: now, access_count: 0u64 };
        let size = core::mem::size_of::<T>();
        let logged = CacheHistoryEntry {
            timestamp: now,
            operation: CacheOperation::Insert,
            key: key.clone(),
            value_size: size,
            success: true,
        };
        let ghost logged_view = logged;
        self.entries.set(key, entry);
        let due = self.history.record(CacheOperation::Insert, logged.key, size, true, now);
        proof {
            assert(self.history.log() == spec_record_step(
                pre_log,
                logged_view,
                old(self).spec_history().spec_max_entries(),
            ));
        }
        if due {
            self.backup_pending = true;
        }
    }

    /// Drop `key` outright — the local half of a replicated invalidation:
    /// the entry and its pattern go, and the removal is logged.
    pub fn invalidate(&mut self, key: &str, now: u64)
        requires
            old(self).wf(),
        ensures
            final(self).wf(),
            Self::spec_config_unchanged(*old(self), *final(self)),
            final(self).hits() == old(self).hits(),
            final(self).misses() == old(self).misses(),
            final(self).spec_entry(key@) is None,
            final(self).spec_pattern(key@) is None,
            forall|k2: Seq<char>|
                k2 != key@ ==> final(self).spec_entry(k2) == old(self).spec_entry(k2),
            forall|k2: Seq<char>|
                k2 != key@ ==> final(self).spec_pattern(k2) == old(self).spec_pattern(k2),
            final(self).size() == old(self).size() - (if old(self).spec_entry(key@) is Some {
                1int
            } else {
                0int
            }),
            spec_logged(
                old(self).spec_history().log(),
                final(self).spec_history().log(),
                old(self).spec_history().spec_max_entries(),
                now,
                CacheOperation::Remove,
                key@,
                0,
                true,
            ),
            ({
                let due = spec_elapsed(old(self).spec_history().spec_last_backup(), now) >= old(
                    self,
                ).spec_history().spec_backup_interval();
                &&& final(self).spec_history().spec_last_backup() == (if due {
                    now
                } else {
                    old(self).spec_history().spec_last_backup()
                })
                &&& final(self).spec_backup_pending() == (old(self).spec_backup_pending() || due)
            }),
    {
        self.entries.remove(key);
        self.access_patterns.remove(key);
        let ghost pre_log = self.history.log();
        let logged = CacheHistoryEntry {
            timestamp: now,
            operation: CacheOperation::Remove,
            key: key.to_owned(),
            value_size: 0,
            success: true,
        };
        let ghost logged_view = logged;
        let due = self.history.record(CacheOperation::Remove, logged.key, 0, true, now);
        proof {
            assert(self.history.log() == spec_record_step(
                pre_log,
                logged_view,
                old(self).spec_history().spec_max_entries(),
            ));
        }
        if due {
            self.backup_pending = true;
        }
    }

    /// The compression hook: pass-through in the base design.
    fn compress_value(&self, value: T) -> (r: T)
        ensures
            r == value,
    {
        value
    }

    /// Remove every eviction candidate, and its pattern with it.
    fn evict_entries(&mut self, now: u64)
        requires
            old(self).wf(),
        ensures
            final(self).wf(),
            Self::spec_config_unchanged(*old(self), *final(self)),
            final(self).hits() == old(self).hits(),
            final(self).misses() == old(self).misses(),
            final(self).spec_history() == old(self).spec_history(),
            final(self).spec_backup_pending() == old(self).spec_backup_pending(),
            forall|k2: Seq<char>|
                #[trigger] old(self).spec_entry(k2) is Some ==> if old(self).spec_candidate(
                    k2,
                    now,
                ) {
                    final(self).spec_entry(k2) is None
                } else {
                    final(self).spec_entry(k2) == old(self).spec_entry(k2)
                },
            forall|k2: Seq<char>|
                old(self).spec_entry(k2) is None ==> final(self).spec_entry(k2) is None,
            forall|k2: Seq<char>|
                (#[trigger] old(self).spec_entry(k2) is Some && old(self).spec_candidate(k2, now))
                    ==> final(self).spec_pattern(k2) is None,
            forall|k2: Seq<char>|
                !(old(self).spec_entry(k2) is Some && old(self).spec_candidate(k2, now))
                    ==> final(self).spec_pattern(k2) == old(self).spec_pattern(k2),
            final(self).size() <= old(self).size(),
            (exists|k2: Seq<char>|
                #[trigger] old(self).spec_entry(k2) is Some && old(self).spec_candidate(k2, now))
                ==> final(self).size() < old(self).size(),
    {
        let ghost pre = *self;
        let mut i: usize = self.entries.length();
        let mut removed_any = false;
        while i > 0
            invariant
                pre.wf(),
                self.wf(),
                i <= self.entries.len(),
                self.entries.len() <= pre.entries.len(),
                Self::spec_config_unchanged(pre, *self),
                self.hit_count == pre.hit_count,
                self.miss_count == pre.miss_count,
                self.history == pre.history,
                self.backup_pending == pre.backup_pending,
                // The unscanned prefix is exactly the original prefix.
                self.entries.seq().subrange(0, i as int) == pre.entries.seq().subrange(0, i as int),
                // Keys of the scanned suffix: candidates are gone with
                // their patterns, the rest keep entry and pattern.
                forall|j: int|
                    i <= j < pre.entries.seq().len() ==> {
                        let k2 = #[trigger] pre.entries.seq()[j].0@;
                        if pre.spec_candidate(k2, now) {
                            self.spec_entry(k2) is None && self.spec_pattern(k2) is None
                        } else {
                            self.spec_entry(k2) == pre.spec_entry(k2) && self.spec_pattern(k2)
                                == pre.spec_pattern(k2)
                        }
                    },
                // Keys not named in the scanned suffix are untouched.
                forall|k2: Seq<char>|
                    (forall|j: int|
                        i <= j < pre.entries.seq().len() ==> #[trigger] pre.entries.seq()[j].0@
                            != k2) ==> self.spec_entry(k2) == pre.spec_entry(k2)
                        && self.spec_pattern(k2) == pre.spec_pattern(k2),
                removed_any ==> self.entries.len() < pre.entries.len(),
                !removed_any ==> *self == pre,
            decreases i,
        {
            i = i - 1;
            let ghost k2 = self.entries.seq()[i as int].0@;
            proof {
                let ihead = i as int + 1;
                assert(self.entries.seq().subrange(0, ihead) == pre.entries.seq().subrange(
                    0,
                    ihead,
                ));
                assert(self.entries.seq().subrange(0, ihead)[i as int] == self.entries.seq()[i as int]);
                assert(pre.entries.seq().subrange(0, ihead)[i as int] == pre.entries.seq()[i as int]);
                assert(self.entries.seq()[i as int] == pre.entries.seq()[i as int]);
                self.entries.lemma_get_at(k2, i as int);
                pre.entries.lemma_get_at(k2, i as int);
            }
            proof {
                let pseq = pre.entries.seq();
                assert forall|j: int| i + 1 <= j < pseq.len() implies (#[trigger] pseq[j].0@)
                    != k2 by {
                    assert((i as int) < j);
                }
                assert(self.spec_pattern(k2) == pre.spec_pattern(k2));
                assert(self.spec_entry(k2) == pre.spec_entry(k2));
            }
            let candidate = match self.access_patterns.predict(self.entries.pair_at(i).0.as_str()) {
                Some(t) => t < now,
                None => true,
            };
            if candidate {
                proof {
                    assert(pre.spec_candidate(k2, now));
                }
                let key_owned = self.entries.pair_at(i).0.clone();
                self.access_patterns.remove(key_owned.as_str());
                self.entries.remove_at(i);
                removed_any = true;
            } else {
                proof {
                    assert(!pre.spec_candidate(k2, now));
                }
            }
        }
        proof {
            assert forall|k2: Seq<char>| #[trigger] pre.spec_entry(k2) is Some implies (if pre
                .spec_candidate(k2, now) {
                self.spec_entry(k2) is None && self.spec_pattern(k2) is None
            } else {
                self.spec_entry(k2) == pre.spec_entry(k2) && self.spec_pattern(k2)
                    == pre.spec_pattern(k2)
            }) by {
                let j = choose|j: int|
                    0 <= j < pre.entries.seq().len() && pre.entries.seq()[j].0@ == k2;
                pre.entries.lemma_get_at(k2, j);
            }
            if exists|k2: Seq<char>|
                #[trigger] pre.spec_entry(k2) is Some && pre.spec_candidate(k2, now) {
                let k2 = choose|k2: Seq<char>|
                    #[trigger] pre.spec_entry(k2) is Some && pre.spec_candidate(k2, now);
                if !removed_any {
                    assert(self.spec_entry(k2) is None);
                    assert(pre.spec_entry(k2) == self.spec_entry(k2));
                    assert(false);
                }
            }
        }
    }

    /// Replace the history log with a recovered snapshot, as
    /// [`CacheHistory::recover`] says.
    pub fn recover(&mut self, snapshot: Option<Vec<CacheHistoryEntry>>)
        requires
            old(self).wf(),
        ensures
            final(self).wf(),
            Self::spec_config_unchanged(*old(self), *final(self)),
            forall|k2: Seq<char>| final(self).spec_entry(k2) == old(self).spec_entry(k2),
            forall|k2: Seq<char>| final(self).spec_pattern(k2) == old(self).spec_pattern(k2),
            final(self).hits() == old(self).hits(),
            final(self).misses() == old(self).misses(),
            final(self).spec_backup_pending() == old(self).spec_backup_pending(),
            final(self).spec_history().spec_last_backup() == old(
                self,
            ).spec_history().spec_last_backup(),
            match snapshot {
                None => final(self).spec_history().log() == old(self).spec_history().log(),
                Some(v) => final(self).spec_history().log() == crate::history::spec_tail(
                    v@,
                    crate::history::spec_cap(old(self).spec_history().spec_max_entries()),
                ),
            },
    {
        self.history.recover(snapshot);
    }

    /// Size, counters, history counts and how many keys carry a
    /// prediction.
    pub fn get_stats(&self) -> (r: EnhancedCacheStats)
        requires
            self.wf(),
        ensures
            r.size == self.size(),
            r.hit_count == self.hits(),
            r.miss_count == self.misses(),
            r.history_stats.inserts == crate::history::spec_op_count(
                self.spec_history().log(),
                CacheOperation::Insert,
            ),
            r.history_stats.gets == crate::history::spec_op_count(
                self.spec_history().log(),
                CacheOperation::Get,
            ),
            r.history_stats.invalidations == crate::history::spec_op_count(
                self.spec_history().log(),
                CacheOperation::Invalidate,
            ),
            r.history_stats.recoveries == crate::history::spec_op_count(
                self.spec_history().log(),
                CacheOperation::Recovery,
            ),
            r.history_stats.successful_operations == crate::history::spec_success_count(
                self.spec_history().log(),
            ),
            r.predictive_hits == self.spec_predicted_total(),
    {
        EnhancedCacheStats {
            size: self.entries.length(),
            hit_count: self.hit_count,
            miss_count: self.miss_count,
            history_stats: self.history.get_stats(),
            predictive_hits: self.access_patterns.predicted_count(),
        }
    }

    /// Whether a history snapshot fell due; asking clears the flag, so
    /// each due snapshot is handed out once.
    pub fn take_backup_request(&mut self) -> (r: bool)
        requires
            old(self).wf(),
        ensures
            final(self).wf(),
            r == old(self).spec_backup_pending(),
            !final(self).spec_backup_pending(),
            final(self).spec_history() == old(self).spec_history(),
            Self::spec_config_unchanged(*old(self), *final(self)),
            forall|k2: Seq<char>| final(self).spec_entry(k2) == old(self).spec_entry(k2),
            forall|k2: Seq<char>| final(self).spec_pattern(k2) == old(self).spec_pattern(k2),
            final(self).hits() == old(self).hits(),
            final(self).misses() == old(self).misses(),
    {
        let r = self.backup_pending;
        self.backup_pending = false;
        r
    }

    /// The entry at position `i` of the history log, oldest first; the
    /// caller walks these to persist a snapshot.
    pub fn history_entry_at(&self, i: usize) -> (r: &CacheHistoryEntry)
        requires
            i < self.spec_history().log().len(),
        ensures
            *r == self.spec_history().log()[i as int],
    {
        self.history.entry_at(i)
    }

    /// Length of the history log.
    pub fn history_len(&self) -> (r: usize)
        ensures
            r == self.spec_history().log().len(),
    {
        self.history.len()
    }
}

} // verus!
