//! The access-pattern tracker: a per-key rolling window of access
//! timestamps. Once the window holds at least three samples, the predicted
//! next access is the last access plus the mean of the consecutive
//! inter-access intervals (integer mean, rounded down).

use vstd::prelude::*;
use vstd::arithmetic::div_mod::{lemma_div_by_multiple, lemma_div_is_ordered};
use crate::clock::{spec_elapsed, spec_inc, elapsed, inc};
use crate::table::Table;

verus! {

/// Most samples a key's window retains.
pub const WINDOW_LIMIT: usize = 16;

/// Samples needed before a prediction is made.
pub const PREDICTION_THRESHOLD: usize = 3;

#[derive(Debug, Clone)]
pub struct AccessPattern {
    pub last_access: u64,
    pub access_count: u64,
    pub access_times: Vec<u64>,
    pub predicted_next_access: Option<u64>,
}

/// Clamp a mathematical integer into `u64`.
pub open spec fn sat64(x: int) -> u64 {
    if x > u64::MAX {
        u64::MAX
    } else if x < 0 {
        0
    } else {
        x as u64
    }
}

/// Total of the elapsed times between consecutive samples.
pub open spec fn spec_intervals_total(s: Seq<u64>) -> int
    decreases s.len(),
{
    if s.len() < 2 {
        0
    } else {
        spec_intervals_total(s.drop_last()) + spec_elapsed(s[s.len() - 2], s.last())
    }
}

/// The interval total is nonnegative and at most one maximal interval per
/// consecutive pair.
pub proof fn lemma_intervals_total_bounds(s: Seq<u64>)
    ensures
        0 <= spec_intervals_total(s),
        s.len() >= 1 ==> spec_intervals_total(s) <= (s.len() - 1) * u64::MAX,
    decreases s.len(),
{
    if s.len() >= 2 {
        lemma_intervals_total_bounds(s.drop_last());
    }
}

/// The window after recording a sample: the oldest sample falls out once
/// the window is full.
pub open spec fn spec_window_push(s: Seq<u64>, now: u64) -> Seq<u64> {
    if s.len() >= WINDOW_LIMIT {
        s.drop_first().push(now)
    } else {
        s.push(now)
    }
}

/// The prediction read off a window: defined once the window holds at least
/// [`PREDICTION_THRESHOLD`] samples, as the last access plus the mean
/// inter-access interval, saturating at the top of `u64`.
pub open spec fn spec_prediction(s: Seq<u64>, last: u64) -> Option<u64> {
    if s.len() >= PREDICTION_THRESHOLD {
        Some(sat64(last + spec_intervals_total(s) / (s.len() - 1) as int))
    } else {
        None
    }
}

/// One recorded access applied to a key's pattern (`None`: the key was not
/// tracked yet).
pub open spec fn spec_pattern_step(p: Option<AccessPattern>, now: u64) -> AccessPattern {
    let times = match p {
        Some(q) => spec_window_push(q.access_times@, now),
        None => seq![now],
    };
    let count = match p {
        Some(q) => spec_inc(q.access_count),
        None => 1u64,
    };
    AccessPattern {
        last_access: now,
        access_count: count,
        access_times: arbitrary(),
        predicted_next_access: spec_prediction(times, now),
    }
}

impl AccessPattern {
    /// The window never outgrows its limit.
    pub open spec fn wf(self) -> bool {
        self.access_times@.len() <= WINDOW_LIMIT
    }

    /// The stepped pattern, with the window made concrete.
    pub open spec fn matches_step(self, p: Option<AccessPattern>, now: u64) -> bool {
        let stepped = spec_pattern_step(p, now);
        &&& self.last_access == stepped.last_access
        &&& self.access_count == stepped.access_count
        &&& self.access_times@ == match p {
            Some(q) => spec_window_push(q.access_times@, now),
            None => seq![now],
        }
        &&& self.predicted_next_access == stepped.predicted_next_access
    }
}

/// Prediction convergence: after exactly three recorded accesses to one key
/// at times `t0 <= t1 <= t2`, the predicted next access is `t2` plus the
/// mean of the two inter-access intervals.
pub proof fn lemma_prediction_after_three(
    p0: AccessPattern,
    p1: AccessPattern,
    p2: AccessPattern,
    t0: u64,
    t1: u64,
    t2: u64,
)
    requires
        t0 <= t1 <= t2,
        t2 + (t2 - t0) / 2 <= u64::MAX,
        p0.matches_step(None, t0),
        p1.matches_step(Some(p0), t1),
        p2.matches_step(Some(p1), t2),
    ensures
        p2.predicted_next_access == Some((t2 + ((t1 - t0) + (t2 - t1)) / 2) as u64),
{
    let w0 = seq![t0];
    let w1 = w0.push(t1);
    let w2 = w1.push(t2);
    assert(p1.access_times@ == w1);
    assert(p2.access_times@ == w2);
    assert(w2.drop_last() =~= w1);
    assert(w1.drop_last() =~= w0);
    assert(spec_intervals_total(w0) == 0);
    assert(spec_intervals_total(w1) == spec_elapsed(t0, t1));
    assert(spec_intervals_total(w2) == spec_elapsed(t0, t1) + spec_elapsed(t1, t2));
    assert(p2.predicted_next_access == spec_prediction(w2, t2));
    assert(spec_intervals_total(w2) == (t1 - t0) + (t2 - t1));
}

/// How many of the listed patterns carry a prediction.
pub open spec fn spec_predicted_count(s: Seq<(String, AccessPattern)>) -> int
    decreases s.len(),
{
    if s.len() == 0 {
        0
    } else {
        spec_predicted_count(s.drop_last()) + (if s.last().1.predicted_next_access is Some {
            1int
        } else {
            0int
        })
    }
}

/// Per-key access patterns.
pub struct AccessTracker {
    patterns: Table<AccessPattern>,
}

impl AccessTracker {
    pub closed spec fn wf(self) -> bool {
        &&& self.patterns.wf()
        &&& forall|k: Seq<char>|
            #[trigger] self.spec_get(k) matches Some(p) ==> p.wf()
    }

    pub closed spec fn spec_get(self, k: Seq<char>) -> Option<AccessPattern> {
        self.patterns.spec_get(k)
    }

    pub closed spec fn len(self) -> nat {
        self.patterns.len()
    }

    pub fn new() -> (r: AccessTracker)
        ensures
            r.wf(),
            r.len() == 0,
            forall|k: Seq<char>| r.spec_get(k) is None,
    {
        AccessTracker { patterns: Table::new() }
    }

    /// Record an access of `key` at `now`: push the timestamp into the
    /// key's window (creating the pattern on first sight) and refresh the
    /// prediction.
    pub fn record(&mut self, key: &str, now: u64)
        requires
            old(self).wf(),
        ensures
            final(self).wf(),
            final(self).spec_get(key@) matches Some(p) && p.matches_step(
                old(self).spec_get(key@),
                now,
            ),
            forall|k2: Seq<char>|
                k2 != key@ ==> final(self).spec_get(k2) == old(self).spec_get(k2),
            final(self).len() == old(self).len() + (if old(self).spec_get(key@) is Some {
                0int
            } else {
                1int
            }),
    {
        let ghost prior_view = self.patterns.spec_get(key@);
        let prior = self.patterns.take(key);
        let (key_owned, mut pat) = match prior {
            Some(p) => p,
            None => (
                key.to_owned(),
                AccessPattern {
                    last_access: now,
                    access_count: 0,
                    access_times: Vec::new(),
                    predicted_next_access: None,
                },
            ),
        };
        if pat.access_times.len() >= WINDOW_LIMIT {
            pat.access_times.remove(0);
        }
        pat.access_times.push(now);
        pat.last_access = now;
        pat.access_count = inc(pat.access_count);
        pat.predicted_next_access = prediction_of(&pat.access_times, now);
        proof {
            match prior_view {
                Some(q) => {
                    assert(pat.access_times@ =~= spec_window_push(q.access_times@, now));
                },
                None => {
                    assert(pat.access_times@ =~= seq![now]);
                },
            }
            assert(pat.wf());
        }
        self.patterns.set(key_owned, pat);
        proof {
            let ghost keyv = key@;
            assert forall|k: Seq<char>| #[trigger] self.spec_get(k) is Some implies (
            self.spec_get(k)->Some_0).wf() by {
                if k != keyv {
                    assert(self.spec_get(k) == old(self).spec_get(k));
                    assert(old(self).spec_get(k) matches Some(p0) ==> p0.wf());
                }
            }
        }
    }

    /// The predicted next access of `key`, if one has been computed.
    pub fn predict(&self, key: &str) -> (r: Option<u64>)
        requires
            self.wf(),
        ensures
            r == match self.spec_get(key@) {
                Some(p) => p.predicted_next_access,
                None => None::<u64>,
            },
    {
        match self.patterns.get_ref(key) {
            Some(p) => p.predicted_next_access,
            None => None,
        }
    }

    /// Stop tracking `key`.
    pub fn remove(&mut self, key: &str)
        requires
            old(self).wf(),
        ensures
            final(self).wf(),
            final(self).spec_get(key@) is None,
            forall|k2: Seq<char>|
                k2 != key@ ==> final(self).spec_get(k2) == old(self).spec_get(k2),
    {
        self.patterns.remove(key);
        proof {
            assert forall|k: Seq<char>| #[trigger] self.spec_get(k) is Some implies (
            self.spec_get(k)->Some_0).wf() by {
                if k != key@ {
                    assert(self.spec_get(k) == old(self).spec_get(k));
                    assert(old(self).spec_get(k) matches Some(p0) ==> p0.wf());
                }
            }
        }
    }

    /// How many tracked keys carry a prediction.
    pub closed spec fn spec_predicted_total(self) -> int {
        spec_predicted_count(self.patterns.seq())
    }

    /// How many tracked keys carry a prediction.
    pub fn predicted_count(&self) -> (r: usize)
        requires
            self.wf(),
        ensures
            r == self.spec_predicted_total(),
    {
        let n = self.patterns.length();
        let mut count: usize = 0;
        let mut i: usize = 0;
        while i < n
            invariant
                n == self.patterns.len(),
                count <= i <= n,
                count as int == spec_predicted_count(self.patterns.seq().subrange(0, i as int)),
            decreases n - i,
        {
            proof {
                let pre = self.patterns.seq().subrange(0, i as int);
                let post = self.patterns.seq().subrange(0, i as int + 1);
                assert(post.drop_last() =~= pre);
                assert(post.last() == self.patterns.seq()[i as int]);
            }
            if self.patterns.pair_at(i).1.predicted_next_access.is_some() {
                count = count + 1;
            }
            i = i + 1;
        }
        proof {
            assert(self.patterns.seq().subrange(0, n as int) =~= self.patterns.seq());
        }
        count
    }
}

/// The prediction for a freshly pushed window ending at `last`.
fn prediction_of(times: &Vec<u64>, last: u64) -> (r: Option<u64>)
    requires
        times@.len() <= WINDOW_LIMIT,
    ensures
        r == spec_prediction(times@, last),
{
    let n = times.len();
    if n < PREDICTION_THRESHOLD {
        return None;
    }
    let total = intervals_total(times);
    proof {
        lemma_intervals_total_bounds(times@);
        lemma_div_is_ordered(
            total as int,
            (n - 1) as int * u64::MAX,
            (n - 1) as int,
        );
        lemma_div_by_multiple(u64::MAX as int, (n - 1) as int);
    }
    let mean = total / ((n - 1) as u128);
    let mean64: u64 = mean as u64;
    if last <= u64::MAX - mean64 {
        Some(last + mean64)
    } else {
        Some(u64::MAX)
    }
}

/// Total of the elapsed times between consecutive samples.
fn intervals_total(times: &Vec<u64>) -> (r: u128)
    requires
        times@.len() <= WINDOW_LIMIT,
    ensures
        r as int == spec_intervals_total(times@),
{
    let n = times.len();
    let mut acc: u128 = 0;
    if n < 2 {
        proof {
            assert(spec_intervals_total(times@) == 0);
        }
        return 0;
    }
    let mut i: usize = 1;
    while i < n
        invariant
            2 <= n == times@.len() <= WINDOW_LIMIT,
            1 <= i <= n,
            acc as int == spec_intervals_total(times@.subrange(0, i as int)),
            acc <= (i - 1) as int * u64::MAX,
        decreases n - i,
    {
        let d = elapsed(times[i - 1], times[i]);
        proof {
            let pre = times@.subrange(0, i as int);
            let post = times@.subrange(0, i as int + 1);
            assert(post.drop_last() =~= pre);
            assert(spec_intervals_total(post) == spec_intervals_total(pre) + spec_elapsed(
                times@[i as int - 1],
                times@[i as int],
            ));
        }
        acc = acc + (d as u128);
        i = i + 1;
    }
    proof {
        assert(times@.subrange(0, n as int) =~= times@);
    }
    acc
}

} // verus!
