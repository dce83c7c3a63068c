//! A string-keyed association table with pairwise-distinct keys, the shape
//! shared by the entry store and the access-pattern tracker. Lookups and
//! updates are specified against an abstract `Seq` of pairs, with
//! `spec_get` as the map-like reading of that sequence.

use vstd::prelude::*;

verus! {

pub struct Table<V> {
    items: Vec<(String, V)>,
}

impl<V> Table<V> {
    /// The table's contents, in insertion order.
    pub closed spec fn seq(self) -> Seq<(String, V)> {
        self.items@
    }

    /// Keys are pairwise distinct.
    pub open spec fn wf(self) -> bool {
        forall|i: int, j: int|
            0 <= i < j < self.seq().len() ==> self.seq()[i].0@ != self.seq()[j].0@
    }

    pub open spec fn len(self) -> nat {
        self.seq().len()
    }

    pub open spec fn contains(self, k: Seq<char>) -> bool {
        exists|i: int| 0 <= i < self.seq().len() && self.seq()[i].0@ == k
    }

    /// The value stored under `k`, if any.
    pub open spec fn spec_get(self, k: Seq<char>) -> Option<V> {
        if self.contains(k) {
            let i = choose|i: int| 0 <= i < self.seq().len() && self.seq()[i].0@ == k;
            Some(self.seq()[i].1)
        } else {
            None
        }
    }

    /// In a well-formed table, any position holding key `k` is the one
    /// `spec_get` reads.
    pub proof fn lemma_get_at(self, k: Seq<char>, i: int)
        requires
            self.wf(),
            0 <= i < self.seq().len(),
            self.seq()[i].0@ == k,
        ensures
            self.contains(k),
            self.spec_get(k) == Some(self.seq()[i].1),
    {
        assert(self.contains(k));
        let j = choose|j: int| 0 <= j < self.seq().len() && self.seq()[j].0@ == k;
        if j < i {
            assert(self.seq()[j].0@ != self.seq()[i].0@);
        } else if i < j {
            assert(self.seq()[i].0@ != self.seq()[j].0@);
        }
    }

    pub fn new() -> (r: Table<V>)
        ensures
            r.wf(),
            r.len() == 0,
            forall|k: Seq<char>| r.spec_get(k) is None,
    {
        Table { items: Vec::new() }
    }

    pub fn length(&self) -> (r: usize)
        ensures
            r == self.len(),
    {
        self.items.len()
    }

    pub fn pair_at(&self, i: usize) -> (r: &(String, V))
        requires
            i < self.len(),
        ensures
            *r == self.seq()[i as int],
    {
        &self.items[i]
    }

    /// The position of `key`, when present.
    pub fn index_of(&self, key: &str) -> (r: Option<usize>)
        ensures
            match r {
                Some(i) => i < self.len() && self.seq()[i as int].0@ == key@,
                None => !self.contains(key@),
            },
    {
        let k: String = key.to_owned();
        let n = self.items.len();
        let mut i: usize = 0;
        while i < n
            invariant
                n == self.len(),
                i <= n,
                k@ == key@,
                forall|j: int| 0 <= j < i ==> self.seq()[j].0@ != key@,
            decreases n - i,
        {
            if self.items[i].0 == k {
                return Some(i);
            }
            i = i + 1;
        }
        None
    }

    pub fn get_ref(&self, key: &str) -> (r: Option<&V>)
        requires
            self.wf(),
        ensures
            match r {
                Some(v) => self.spec_get(key@) == Some(*v),
                None => self.spec_get(key@) is None,
            },
    {
        match self.index_of(key) {
            Some(i) => {
                proof {
                    self.lemma_get_at(key@, i as int);
                }
                Some(&self.items[i].1)
            },
            None => None,
        }
    }

    /// Bind `key` to `value`, overwriting any previous binding.
    pub fn set(&mut self, key: String, value: V)
        requires
            old(self).wf(),
        ensures
            final(self).wf(),
            final(self).spec_get(key@) == Some(value),
            forall|k2: Seq<char>|
                k2 != key@ ==> final(self).spec_get(k2) == old(self).spec_get(k2),
            final(self).len() == old(self).len() + (if old(self).contains(key@) {
                0int
            } else {
                1int
            }),
            old(self).contains(key@) ==> exists|i: int|
                0 <= i < old(self).seq().len() && old(self).seq()[i].0@ == key@
                    && final(self).seq() == #[trigger] old(self).seq().update(i, (key, value)),
            !old(self).contains(key@) ==> final(self).seq() == old(self).seq().push((key, value)),
    {
        let ghost pre = *self;
        match self.index_of(key.as_str()) {
            Some(i) => {
                self.items[i] = (key, value);
                proof {
                    assert(self.seq() =~= pre.seq().update(i as int, (key, value)));
                    assert(pre.contains(key@));
                    assert((0 <= i as int) && ((i as int) < pre.seq().len()) && pre.seq()[i as int].0@
                        == key@ && self.seq() == pre.seq().update(i as int, (key, value)));
                    pre.lemma_get_at(key@, i as int);
                    self.lemma_get_at(key@, i as int);
                    assert forall|k2: Seq<char>| k2 != key@ implies self.spec_get(k2)
                        == pre.spec_get(k2) by {
                        Self::lemma_update_preserves(pre, *self, i as int, k2);
                    }
                }
            },
            None => {
                self.items.push((key, value));
                proof {
                    assert(self.seq() =~= pre.seq().push((key, value)));
                    assert(self.wf());
                    self.lemma_get_at(key@, pre.seq().len() as int);
                    assert forall|k2: Seq<char>| k2 != key@ implies self.spec_get(k2)
                        == pre.spec_get(k2) by {
                        Self::lemma_push_preserves(pre, *self, k2);
                    }
                }
            },
        }
    }

    /// Replace the value at position `i`, keeping its key.
    pub fn set_value_at(&mut self, i: usize, v: V)
        requires
            old(self).wf(),
            i < old(self).len(),
        ensures
            final(self).wf(),
            final(self).seq() == old(self).seq().update(
                i as int,
                (old(self).seq()[i as int].0, v),
            ),
            final(self).len() == old(self).len(),
            final(self).spec_get(old(self).seq()[i as int].0@) == Some(v),
            forall|k2: Seq<char>|
                k2 != old(self).seq()[i as int].0@ ==> final(self).spec_get(k2) == old(
                    self,
                ).spec_get(k2),
    {
        let ghost pre = *self;
        let ghost k = pre.seq()[i as int].0@;
        let pair = self.items.remove(i);
        self.items.insert(i, (pair.0, v));
        proof {
            assert(self.seq() =~= pre.seq().update(i as int, (pre.seq()[i as int].0, v)));
            assert(self.wf());
            pre.lemma_get_at(k, i as int);
            self.lemma_get_at(k, i as int);
            assert forall|k2: Seq<char>| k2 != k implies self.spec_get(k2) == pre.spec_get(
                k2,
            ) by {
                Self::lemma_update_preserves(pre, *self, i as int, k2);
            }
        }
    }

    /// Drop the pair at position `i`.
    pub fn remove_at(&mut self, i: usize)
        requires
            old(self).wf(),
            i < old(self).len(),
        ensures
            final(self).wf(),
            final(self).seq() == old(self).seq().remove(i as int),
            final(self).len() == old(self).len() - 1,
            final(self).spec_get(old(self).seq()[i as int].0@) is None,
            forall|k2: Seq<char>|
                k2 != old(self).seq()[i as int].0@ ==> final(self).spec_get(k2) == old(
                    self,
                ).spec_get(k2),
    {
        let ghost pre = *self;
        let ghost k = pre.seq()[i as int].0@;
        self.items.remove(i);
        proof {
            assert(self.seq() =~= pre.seq().remove(i as int));
            pre.lemma_get_at(k, i as int);
            assert(self.wf()) by {
                Self::lemma_remove_wf(pre, *self, i as int);
            }
            assert(!self.contains(k)) by {
                Self::lemma_remove_drops_key(pre, *self, i as int, k);
            }
            assert forall|k2: Seq<char>| k2 != k implies self.spec_get(k2) == pre.spec_get(
                k2,
            ) by {
                Self::lemma_remove_preserves(pre, *self, i as int, k, k2);
            }
        }
    }

    /// Remove and hand back the pair bound to `key`, if any.
    pub fn take(&mut self, key: &str) -> (r: Option<(String, V)>)
        requires
            old(self).wf(),
        ensures
            final(self).wf(),
            forall|k2: Seq<char>|
                k2 != key@ ==> final(self).spec_get(k2) == old(self).spec_get(k2),
            match r {
                Some(p) => {
                    &&& p.0@ == key@
                    &&& old(self).spec_get(key@) == Some(p.1)
                    &&& final(self).spec_get(key@) is None
                    &&& final(self).len() == old(self).len() - 1
                },
                None => {
                    &&& *final(self) == *old(self)
                    &&& old(self).spec_get(key@) is None
                },
            },
    {
        let ghost pre = *self;
        match self.index_of(key) {
            Some(i) => {
                proof {
                    pre.lemma_get_at(key@, i as int);
                }
                let p = self.items.remove(i);
                proof {
                    assert(self.seq() =~= pre.seq().remove(i as int));
                    assert(self.wf()) by {
                        Self::lemma_remove_wf(pre, *self, i as int);
                    }
                    assert(!self.contains(key@)) by {
                        Self::lemma_remove_drops_key(pre, *self, i as int, key@);
                    }
                    assert forall|k2: Seq<char>| k2 != key@ implies self.spec_get(k2)
                        == pre.spec_get(k2) by {
                        Self::lemma_remove_preserves(pre, *self, i as int, key@, k2);
                    }
                }
                Some(p)
            },
            None => None,
        }
    }

    /// Drop the binding of `key`, if any.
    pub fn remove(&mut self, key: &str)
        requires
            old(self).wf(),
        ensures
            final(self).wf(),
            final(self).spec_get(key@) is None,
            forall|k2: Seq<char>|
                k2 != key@ ==> final(self).spec_get(k2) == old(self).spec_get(k2),
            final(self).len() == old(self).len() - (if old(self).contains(key@) {
                1int
            } else {
                0int
            }),
    {
        let ghost pre = *self;
        let r = self.take(key);
        proof {
            if pre.contains(key@) {
                assert(pre.spec_get(key@) is Some);
                assert(r is Some);
            } else {
                assert(pre.spec_get(key@) is None);
            }
        }
    }

    /// Updating position `i` leaves every other key's binding unchanged.
    proof fn lemma_update_preserves(pre: Self, post: Self, i: int, k2: Seq<char>)
        requires
            pre.wf(),
            0 <= i < pre.seq().len(),
            post.seq() == pre.seq().update(i, post.seq()[i]),
            post.seq()[i].0@ == pre.seq()[i].0@,
            k2 != pre.seq()[i].0@,
        ensures
            post.spec_get(k2) == pre.spec_get(k2),
    {
        assert(post.wf());
        if pre.contains(k2) {
            let j = choose|j: int| 0 <= j < pre.seq().len() && pre.seq()[j].0@ == k2;
            assert(j != i);
            assert(post.seq()[j].0@ == k2);
            pre.lemma_get_at(k2, j);
            post.lemma_get_at(k2, j);
            assert(post.seq()[j].1 == pre.seq()[j].1);
        } else {
            if post.contains(k2) {
                let j = choose|j: int| 0 <= j < post.seq().len() && post.seq()[j].0@ == k2;
                assert(j != i);
                assert(pre.seq()[j].0@ == k2);
            }
        }
    }

    /// Pushing a fresh key leaves every other key's binding unchanged.
    proof fn lemma_push_preserves(pre: Self, post: Self, k2: Seq<char>)
        requires
            pre.wf(),
            post.seq().len() == pre.seq().len() + 1,
            post.seq() == pre.seq().push(post.seq()[post.seq().len() - 1]),
            !pre.contains(post.seq()[post.seq().len() - 1].0@),
            k2 != post.seq()[post.seq().len() - 1].0@,
        ensures
            post.spec_get(k2) == pre.spec_get(k2),
    {
        let n = pre.seq().len() as int;
        assert(post.wf()) by {
            assert forall|a: int, b: int|
                0 <= a < b < post.seq().len() implies post.seq()[a].0@ != post.seq()[b].0@ by {
                if b < n {
                    assert(pre.seq()[a].0@ != pre.seq()[b].0@);
                } else {
                    assert(post.seq()[a] == pre.seq()[a]);
                }
            }
        }
        if pre.contains(k2) {
            let j = choose|j: int| 0 <= j < pre.seq().len() && pre.seq()[j].0@ == k2;
            pre.lemma_get_at(k2, j);
            assert(post.seq()[j].0@ == k2);
            post.lemma_get_at(k2, j);
        } else {
            if post.contains(k2) {
                let j = choose|j: int| 0 <= j < post.seq().len() && post.seq()[j].0@ == k2;
                assert(j != n);
                assert(pre.seq()[j].0@ == k2);
            }
        }
    }

    /// Removing a position keeps the keys pairwise distinct.
    proof fn lemma_remove_wf(pre: Self, post: Self, i: int)
        requires
            pre.wf(),
            0 <= i < pre.seq().len(),
            post.seq() == pre.seq().remove(i),
        ensures
            post.wf(),
    {
        assert forall|a: int, b: int|
            0 <= a < b < post.seq().len() implies post.seq()[a].0@ != post.seq()[b].0@ by {
            let a0 = if a < i { a } else { a + 1 };
            let b0 = if b < i { b } else { b + 1 };
            assert(post.seq()[a] == pre.seq()[a0]);
            assert(post.seq()[b] == pre.seq()[b0]);
        }
    }

    /// Removing the position that holds `k` removes `k` from the table.
    proof fn lemma_remove_drops_key(pre: Self, post: Self, i: int, k: Seq<char>)
        requires
            pre.wf(),
            0 <= i < pre.seq().len(),
            pre.seq()[i].0@ == k,
            post.seq() == pre.seq().remove(i),
        ensures
            !post.contains(k),
    {
        if post.contains(k) {
            let j = choose|j: int| 0 <= j < post.seq().len() && post.seq()[j].0@ == k;
            let j0 = if j < i { j } else { j + 1 };
            assert(post.seq()[j] == pre.seq()[j0]);
            assert(j0 != i);
            if j0 < i {
                assert(pre.seq()[j0].0@ != pre.seq()[i].0@);
            } else {
                assert(pre.seq()[i].0@ != pre.seq()[j0].0@);
            }
        }
    }

    /// Removing one key's position leaves every other key's binding unchanged.
    proof fn lemma_remove_preserves(pre: Self, post: Self, i: int, k: Seq<char>, k2: Seq<char>)
        requires
            pre.wf(),
            0 <= i < pre.seq().len(),
            pre.seq()[i].0@ == k,
            post.seq() == pre.seq().remove(i),
            k2 != k,
        ensures
            post.spec_get(k2) == pre.spec_get(k2),
    {
        Self::lemma_remove_wf(pre, post, i);
        if pre.contains(k2) {
            let j = choose|j: int| 0 <= j < pre.seq().len() && pre.seq()[j].0@ == k2;
            pre.lemma_get_at(k2, j);
            assert(j != i);
            let j1 = if j < i { j } else { j - 1 };
            assert(post.seq()[j1] == pre.seq()[j]);
            post.lemma_get_at(k2, j1);
        } else {
            if post.contains(k2) {
                let j = choose|j: int| 0 <= j < post.seq().len() && post.seq()[j].0@ == k2;
                let j0 = if j < i { j } else { j + 1 };
                assert(post.seq()[j] == pre.seq()[j0]);
            }
        }
    }
}

} // verus!
