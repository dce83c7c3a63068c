//! Plain hit/miss counters for the surrounding interpreter. The hit ratio
//! is the pair `(hits, total)`, left to the caller to divide.

use vstd::prelude::*;
use crate::clock::{inc_usize, spec_inc_usize};

verus! {

pub struct PerformanceMetrics {
    cache_hits: usize,
    cache_misses: usize,
}

impl PerformanceMetrics {
    pub closed spec fn spec_hits(self) -> usize {
        self.cache_hits
    }

    pub closed spec fn spec_misses(self) -> usize {
        self.cache_misses
    }

    pub fn new() -> (r: PerformanceMetrics)
        ensures
            r.spec_hits() == 0,
            r.spec_misses() == 0,
    {
        PerformanceMetrics { cache_hits: 0, cache_misses: 0 }
    }

    pub fn record_cache_hit(&mut self)
        ensures
            final(self).spec_hits() == spec_inc_usize(old(self).spec_hits()),
            final(self).spec_misses() == old(self).spec_misses(),
    {
        self.cache_hits = inc_usize(self.cache_hits);
    }

    pub fn record_cache_miss(&mut self)
        ensures
            final(self).spec_misses() == spec_inc_usize(old(self).spec_misses()),
            final(self).spec_hits() == old(self).spec_hits(),
    {
        self.cache_misses = inc_usize(self.cache_misses);
    }

    /// Hits and total, the exact value the hit ratio divides.
    pub fn cache_hit_counts(&self) -> (r: (usize, usize))
        ensures
            r.0 == self.spec_hits(),
            r.1 == (if self.spec_hits() + self.spec_misses() <= usize::MAX {
                (self.spec_hits() + self.spec_misses()) as usize
            } else {
                usize::MAX
            }),
    {
        let total = if self.cache_hits <= usize::MAX - self.cache_misses {
            self.cache_hits + self.cache_misses
        } else {
            usize::MAX
        };
        (self.cache_hits, total)
    }
}

} // verus!
