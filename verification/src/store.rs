//! The entry store: a bounded key-value map with per-entry creation and
//! access timestamps. An entry is expired once more than `ttl` milliseconds
//! have passed since its creation; expired entries are invisible to readers
//! and are deleted on the read that finds them. When the store is full, an
//! insert first evicts the least recently used entry.

use vstd::prelude::*;
use crate::clock::{spec_elapsed, spec_inc, elapsed, inc};
use crate::table::Table;

verus! {

/// A stored value together with its timestamps and read counter.
#[derive(Debug, Clone)]
pub struct CacheEntry<T> {
    pub value: T,
    pub created_at: u64,
    pub last_accessed: u64,
    pub access_count: u64,
}

/// An entry created at `created_at` is expired at `now` once more than `ttl`
/// milliseconds have elapsed.
pub open spec fn spec_expired(created_at: u64, ttl: u64, now: u64) -> bool {
    spec_elapsed(created_at, now) > ttl
}

/// Executable counterpart of [`spec_expired`].
pub fn expired_at(created_at: u64, ttl: u64, now: u64) -> (r: bool)
    ensures
        r == spec_expired(created_at, ttl, now),
{
    elapsed(created_at, now) > ttl
}

pub struct Cache<T> {
    entries: Table<CacheEntry<T>>,
    max_size: usize,
    ttl: u64,
    hit_count: u64,
    miss_count: u64,
}

/// Counters and size of a [`Cache`]; the hit ratio is `hit_count` over
/// `hit_count + miss_count`, left to the caller to divide.
#[derive(Debug)]
pub struct CacheStats {
    pub size: usize,
    pub hit_count: u64,
    pub miss_count: u64,
}

impl<T: Clone> Cache<T> {
    pub closed spec fn wf(self) -> bool {
        self.entries.wf()
    }

    /// The entry stored under `k`, if any.
    pub closed spec fn spec_get(self, k: Seq<char>) -> Option<CacheEntry<T>> {
        self.entries.spec_get(k)
    }

    pub closed spec fn contains(self, k: Seq<char>) -> bool {
        self.entries.contains(k)
    }

    pub closed spec fn size(self) -> nat {
        self.entries.len()
    }

    pub closed spec fn spec_max_size(self) -> nat {
        self.max_size as nat
    }

    /// Time-to-live in milliseconds.
    pub closed spec fn spec_ttl(self) -> u64 {
        self.ttl
    }

    pub closed spec fn hits(self) -> u64 {
        self.hit_count
    }

    pub closed spec fn misses(self) -> u64 {
        self.miss_count
    }

    /// `ttl_seconds` is converted to milliseconds, so it must leave that
    /// product inside `u64`.
    pub fn new(max_size: usize, ttl_seconds: u64) -> (r: Cache<T>)
        requires
            ttl_seconds <= u64::MAX / 1000,
        ensures
            r.wf(),
            r.size() == 0,
            forall|k: Seq<char>| r.spec_get(k) is None,
            r.spec_max_size() == max_size,
            r.spec_ttl() == ttl_seconds * 1000,
            r.hits() == 0,
            r.misses() == 0,
    {
        Cache {
            entries: Table::new(),
            max_size,
            ttl: ttl_seconds * 1000,
            hit_count: 0,
            miss_count: 0,
        }
    }

    /// Read `key` at time `now`. A missing key is a miss; a present but
    /// expired entry is deleted and counted as a miss; a live entry is
    /// touched (access time and counter) and a copy of its value returned.
    pub fn get(&mut self, key: &str, now: u64) -> (r: Option<T>)
        requires
            old(self).wf(),
        ensures
            final(self).wf(),
            final(self).spec_ttl() == old(self).spec_ttl(),
            final(self).spec_max_size() == old(self).spec_max_size(),
            forall|k2: Seq<char>|
                k2 != key@ ==> final(self).spec_get(k2) == old(self).spec_get(k2),
            match old(self).spec_get(key@) {
                None => {
                    &&& r is None
                    &&& final(self).spec_get(key@) is None
                    &&& final(self).size() == old(self).size()
                    &&& final(self).hits() == old(self).hits()
                    &&& final(self).misses() == spec_inc(old(self).misses())
                },
                Some(e) => {
                    if spec_expired(e.created_at, old(self).spec_ttl(), now) {
                        &&& r is None
                        &&& final(self).spec_get(key@) is None
                        &&& final(self).size() == old(self).size() - 1
                        &&& final(self).hits() == old(self).hits()
                        &&& final(self).misses() == spec_inc(old(self).misses())
                    } else {
                        &&& r matches Some(v) && cloned(e.value, v)
                        &&& final(self).spec_get(key@) == Some(
                            CacheEntry {
                                last_accessed: now,
                                access_count: spec_inc(e.access_count),
                                ..e
                            },
                        )
                        &&& final(self).size() == old(self).size()
                        &&& final(self).hits() == spec_inc(old(self).hits())
                        &&& final(self).misses() == old(self).misses()
                    }
                },
            },
    {
        match self.entries.take(key) {
            None => {
                self.miss_count = inc(self.miss_count);
                None
            },
            Some((k0, e)) => {
                if expired_at(e.created_at, self.ttl, now) {
                    self.miss_count = inc(self.miss_count);
                    None
                } else {
                    let v = e.value.clone();
                    let touched = CacheEntry {
                        value: e.value,
                        created_at: e.created_at,
                        last_accessed: now,
                        access_count: inc(e.access_count),
                    };
                    self.entries.set(k0, touched);
                    self.hit_count = inc(self.hit_count);
                    Some(v)
                }
            },
        }
    }

    /// `ke` is bound to a least recently used entry.
    pub open spec fn is_lru(self, ke: Seq<char>) -> bool {
        &&& self.spec_get(ke) is Some
        &&& forall|k2: Seq<char>|
            self.spec_get(k2) is Some ==> self.spec_get(ke)->Some_0.last_accessed <= self.spec_get(
                k2,
            )->Some_0.last_accessed
    }

    /// Write `value` under `key` with fresh timestamps. A full store first
    /// evicts a least recently used entry.
    pub fn insert(&mut self, key: String, value: T, now: u64)
        requires
            old(self).wf(),
        ensures
            final(self).wf(),
            final(self).spec_ttl() == old(self).spec_ttl(),
            final(self).spec_max_size() == old(self).spec_max_size(),
            final(self).hits() == old(self).hits(),
            final(self).misses() == old(self).misses(),
            final(self).spec_get(key@) == Some(
                CacheEntry { value, created_at: now, last_accessed: now, access_count: 0u64 },
            ),
            if old(self).size() < old(self).spec_max_size() || old(self).size() == 0 {
                &&& final(self).size() == old(self).size() + (if old(self).contains(key@) {
                    0int
                } else {
                    1int
                })
                &&& forall|k2: Seq<char>|
                    k2 != key@ ==> final(self).spec_get(k2) == old(self).spec_get(k2)
            } else {
                exists|ke: Seq<char>|
                    {
                        &&& #[trigger] old(self).is_lru(ke)
                        &&& ke != key@ ==> final(self).spec_get(ke) is None
                        &&& forall|k2: Seq<char>|
                            k2 != key@ && k2 != ke ==> final(self).spec_get(k2) == old(
                                self,
                            ).spec_get(k2)
                        &&& final(self).size() == (if ke == key@ || !old(self).contains(key@) {
                            old(self).size() as int
                        } else {
                            old(self).size() - 1
                        })
                    }
            },
            old(self).size() <= old(self).spec_max_size() && old(self).spec_max_size() > 0
                ==> final(self).size() <= old(self).spec_max_size(),
    {
        let n = self.entries.length();
        let ghost pre = *self;
        let entry = CacheEntry { value, created_at: now, last_accessed: now, access_count: 0u64 };
        if n >= self.max_size && n > 0 {
            let m = self.lru_index();
            let ghost ke = self.entries.seq()[m as int].0@;
            proof {
                self.entries.lemma_get_at(ke, m as int);
                assert(pre.is_lru(ke));
            }
            self.entries.remove_at(m);
            let ghost mid = *self;
            let ghost key_view = key@;
            self.entries.set(key, entry);
            proof {
                assert(mid.size() == pre.size() - 1);
                if ke == key_view {
                    assert(mid.spec_get(key_view) is None);
                    assert(self.size() == pre.size());
                } else {
                    assert(mid.spec_get(key_view) == pre.spec_get(key_view));
                    assert(mid.spec_get(ke) is None);
                    assert(self.spec_get(ke) is None);
                    if pre.contains(key_view) {
                        assert(mid.contains(key_view));
                        assert(self.size() == pre.size() - 1);
                    } else {
                        assert(!mid.contains(key_view));
                        assert(self.size() == pre.size());
                    }
                }
                assert(exists|k: Seq<char>|
                    {
                        &&& #[trigger] pre.is_lru(k)
                        &&& k != key_view ==> self.spec_get(k) is None
                        &&& forall|k2: Seq<char>|
                            k2 != key_view && k2 != k ==> self.spec_get(k2) == pre.spec_get(k2)
                        &&& self.size() == (if k == key_view || !pre.contains(key_view) {
                            pre.size() as int
                        } else {
                            pre.size() - 1
                        })
                    }) by {
                    assert({
                        &&& pre.is_lru(ke)
                        &&& ke != key_view ==> self.spec_get(ke) is None
                        &&& forall|k2: Seq<char>|
                            k2 != key_view && k2 != ke ==> self.spec_get(k2) == pre.spec_get(k2)
                        &&& self.size() == (if ke == key_view || !pre.contains(key_view) {
                            pre.size() as int
                        } else {
                            pre.size() - 1
                        })
                    });
                }
            }
        } else {
            self.entries.set(key, entry);
        }
    }

    /// The position of a least recently used entry (the first one, when
    /// several share the oldest access time).
    fn lru_index(&self) -> (r: usize)
        requires
            self.wf(),
            self.size() > 0,
        ensures
            r < self.size(),
            self.is_lru(self.entries.seq()[r as int].0@),
    {
        let n = self.entries.length();
        let mut m: usize = 0;
        let mut i: usize = 1;
        while i < n
            invariant
                self.wf(),
                n == self.size(),
                0 < n,
                m < i <= n,
                forall|j: int|
                    0 <= j < i ==> self.entries.seq()[m as int].1.last_accessed
                        <= self.entries.seq()[j].1.last_accessed,
            decreases n - i,
        {
            if self.entries.pair_at(i).1.last_accessed < self.entries.pair_at(m).1.last_accessed {
                m = i;
            }
            i = i + 1;
        }
        proof {
            let ke = self.entries.seq()[m as int].0@;
            self.entries.lemma_get_at(ke, m as int);
            assert forall|k2: Seq<char>| self.spec_get(k2) is Some implies self.spec_get(
                ke,
            )->Some_0.last_accessed <= self.spec_get(k2)->Some_0.last_accessed by {
                let j = choose|j: int|
                    0 <= j < self.entries.seq().len() && self.entries.seq()[j].0@ == k2;
                self.entries.lemma_get_at(k2, j);
            }
        }
        m
    }

    /// TTL invariant: an entry created at `t0` — as `insert`'s contract
    /// fixes `created_at` — is expired at every `t1` past `t0 + ttl`, so
    /// `get`'s contract makes a read at such a `t1` return nothing and
    /// leave the key absent.
    pub proof fn lemma_ttl_invariant(e: CacheEntry<T>, ttl: u64, t0: u64, t1: u64)
        requires
            e.created_at == t0,
            t1 > t0 + ttl,
        ensures
            spec_expired(e.created_at, ttl, t1),
    {
    }

    /// Current size and hit/miss counters.
    pub fn stats(&self) -> (r: CacheStats)
        ensures
            r.size == self.size(),
            r.hit_count == self.hits(),
            r.miss_count == self.misses(),
    {
        CacheStats { size: self.entries.length(), hit_count: self.hit_count, miss_count: self.miss_count }
    }
}

} // verus!
