//! Association tables with unique keys, the storage shape behind every ledger
//! in this crate: class configuration, class ownership, token ownership and
//! the sale book are held in them, and the balance ledger reuses their spec
//! functions and lemmas over its own entries.
//!
//! `Table` maps a single `u64` key to a value; `PairTable` maps a pair of
//! `u64` keys (a class id and a token id) to a `u64` value.  Both keep at most
//! one entry per key and expose their contents through the spec functions
//! `spec_get`, so callers reason about them as partial maps.

use vstd::prelude::*;

verus! {

/// A partial map from `u64` keys to values, stored as a vector of entries
/// with pairwise distinct keys.
pub struct Table<V> {
    entries: Vec<(u64, V)>,
}

impl<V> Table<V> {
    /// The value the entry sequence `s` associates with `k`: the first entry
    /// whose key is `k`, if any.
    pub open spec fn get_of(s: Seq<(u64, V)>, k: u64) -> Option<V>
        decreases s.len(),
    {
        if s.len() == 0 {
            None
        } else if s[0].0 == k {
            Some(s[0].1)
        } else {
            Self::get_of(s.drop_first(), k)
        }
    }

    /// No two entries of `s` share a key.
    pub open spec fn dup_free(s: Seq<(u64, V)>) -> bool {
        forall|i: int, j: int|
            0 <= i < j < s.len() ==> (#[trigger] s[i]).0 != (#[trigger] s[j]).0
    }

    pub closed spec fn wf(self) -> bool {
        Self::dup_free(self.entries@)
    }

    /// The table as a partial map.
    pub closed spec fn spec_get(self, k: u64) -> Option<V> {
        Self::get_of(self.entries@, k)
    }

    /// Entries before position `i` never hold `k`, so the search for `k` may
    /// as well start at `i`.
    proof fn lemma_get_skip(s: Seq<(u64, V)>, k: u64, i: int)
        requires
            0 <= i <= s.len(),
            forall|j: int| 0 <= j < i ==> (#[trigger] s[j]).0 != k,
        ensures
            Self::get_of(s, k) == Self::get_of(s.skip(i), k),
        decreases i,
    {
        if i == 0 {
            assert(s.skip(0) =~= s);
        } else {
            assert(s[0].0 != k);
            assert(s.drop_first() =~= s.skip(1));
            assert(forall|j: int|
                0 <= j < i - 1 ==> (#[trigger] s.drop_first()[j]).0 != k);
            Self::lemma_get_skip(s.drop_first(), k, i - 1);
            assert(s.drop_first().skip(i - 1) =~= s.skip(i));
        }
    }

    /// If the first entry holding `k` stands at position `i`, the map yields
    /// that entry's value.
    pub proof fn lemma_get_found(s: Seq<(u64, V)>, k: u64, i: int)
        requires
            0 <= i < s.len(),
            forall|j: int| 0 <= j < i ==> (#[trigger] s[j]).0 != k,
            s[i].0 == k,
        ensures
            Self::get_of(s, k) == Some(s[i].1),
    {
        Self::lemma_get_skip(s, k, i);
        assert(s.skip(i)[0] == s[i]);
    }

    /// A key held by no entry is absent from the map.
    pub proof fn lemma_get_absent(s: Seq<(u64, V)>, k: u64)
        requires
            forall|j: int| 0 <= j < s.len() ==> (#[trigger] s[j]).0 != k,
        ensures
            Self::get_of(s, k) is None,
    {
        Self::lemma_get_skip(s, k, s.len() as int);
    }

    /// Appending an entry with a fresh key adds exactly that binding.
    pub proof fn lemma_get_push(s: Seq<(u64, V)>, e: (u64, V), k2: u64)
        requires
            forall|j: int| 0 <= j < s.len() ==> (#[trigger] s[j]).0 != e.0,
        ensures
            Self::get_of(s.push(e), k2) == (if k2 == e.0 {
                Some(e.1)
            } else {
                Self::get_of(s, k2)
            }),
        decreases s.len(),
    {
        if s.len() == 0 {
            assert(s.push(e)[0] == e);
            if k2 != e.0 {
                assert(s.push(e).drop_first() =~= s);
            }
        } else {
            assert(s.push(e)[0] == s[0]);
            assert(s.push(e).drop_first() =~= s.drop_first().push(e));
            assert(forall|j: int|
                0 <= j < s.drop_first().len()
                    ==> (#[trigger] s.drop_first()[j]).0 != e.0);
            Self::lemma_get_push(s.drop_first(), e, k2);
        }
    }

    /// Overwriting the entry that holds key `e.0` in place rebinds that key
    /// and nothing else, and keeps the keys distinct.
    pub proof fn lemma_get_update(s: Seq<(u64, V)>, i: int, e: (u64, V), k2: u64)
        requires
            0 <= i < s.len(),
            s[i].0 == e.0,
            Self::dup_free(s),
        ensures
            Self::get_of(s.update(i, e), k2) == (if k2 == e.0 {
                Some(e.1)
            } else {
                Self::get_of(s, k2)
            }),
            Self::dup_free(s.update(i, e)),
        decreases i,
    {
        let t = s.update(i, e);
        assert forall|a: int, b: int| 0 <= a < b < t.len()
            implies (#[trigger] t[a]).0 != (#[trigger] t[b]).0 by {
            assert(t[a].0 == s[a].0);
            assert(t[b].0 == s[b].0);
        }
        if i == 0 {
            if k2 != e.0 {
                assert(t.drop_first() =~= s.drop_first());
                assert(s[0].0 != k2);
            }
        } else {
            assert(t[0] == s[0]);
            assert(t.drop_first() =~= s.drop_first().update(i - 1, e));
            assert(Self::dup_free(s.drop_first())) by {
                assert forall|a: int, b: int|
                    0 <= a < b < s.drop_first().len()
                    implies (#[trigger] s.drop_first()[a]).0
                        != (#[trigger] s.drop_first()[b]).0 by {
                    assert(s.drop_first()[a] == s[a + 1]);
                    assert(s.drop_first()[b] == s[b + 1]);
                }
            }
            assert(s[0].0 != e.0);
            Self::lemma_get_update(s.drop_first(), i - 1, e, k2);
        }
    }

    pub fn new() -> (r: Self)
        ensures
            r.wf(),
            forall|k: u64| #![trigger r.spec_get(k)] r.spec_get(k) is None,
    {
        let r = Table { entries: Vec::new() };
        proof {
            assert forall|k: u64| r.spec_get(k) is None by {
                Self::lemma_get_absent(r.entries@, k);
            }
        }
        r
    }

    /// The position of the entry holding `k`, if there is one.
    fn find(&self, k: u64) -> (r: Option<usize>)
        ensures
            match r {
                Some(i) => i < self.entries@.len() && self.entries@[i as int].0 == k
                    && forall|j: int|
                        0 <= j < i ==> (#[trigger] self.entries@[j]).0 != k,
                None => self.spec_get(k) is None && forall|j: int|
                    0 <= j < self.entries@.len()
                        ==> (#[trigger] self.entries@[j]).0 != k,
            },
    {
        let n = self.entries.len();
        let mut i: usize = 0;
        while i < n
            invariant
                i <= n,
                n == self.entries@.len(),
                forall|j: int| 0 <= j < i ==> (#[trigger] self.entries@[j]).0 != k,
            decreases n - i,
        {
            if self.entries[i].0 == k {
                return Some(i);
            }
            i += 1;
        }
        proof {
            Self::lemma_get_absent(self.entries@, k);
        }
        None
    }

    pub fn get(&self, k: u64) -> (r: Option<&V>)
        ensures
            match r {
                Some(v) => self.spec_get(k) == Some(*v),
                None => self.spec_get(k) is None,
            },
    {
        match self.find(k) {
            Some(i) => {
                proof {
                    Self::lemma_get_found(self.entries@, k, i as int);
                }
                Some(&self.entries[i].1)
            }
            None => None,
        }
    }

    /// Bind `k` to `v`, replacing any previous binding.
    pub fn insert(&mut self, k: u64, v: V)
        requires
            old(self).wf(),
        ensures
            final(self).wf(),
            final(self).spec_get(k) == Some(v),
            forall|k2: u64| #![trigger final(self).spec_get(k2)]
                k2 != k ==> final(self).spec_get(k2) == old(self).spec_get(k2),
    {
        match self.find(k) {
            Some(i) => {
                let ghost s = self.entries@;
                self.entries.set(i, (k, v));
                proof {
                    assert forall|k2: u64|
                        self.spec_get(k2) == (if k2 == k {
                            Some(v)
                        } else {
                            Self::get_of(s, k2)
                        }) by {
                        Self::lemma_get_update(s, i as int, (k, v), k2);
                    }
                }
            }
            None => {
                let ghost s = self.entries@;
                self.entries.push((k, v));
                proof {
                    assert forall|a: int, b: int|
                        0 <= a < b < self.entries@.len()
                        implies (#[trigger] self.entries@[a]).0
                            != (#[trigger] self.entries@[b]).0 by {
                        if b < s.len() {
                        } else {
                            assert(self.entries@[a] == s[a]);
                            assert(self.entries@[b] == (k, v));
                        }
                    }
                    assert forall|k2: u64|
                        self.spec_get(k2) == (if k2 == k {
                            Some(v)
                        } else {
                            Self::get_of(s, k2)
                        }) by {
                        Self::lemma_get_push(s, (k, v), k2);
                    }
                }
            }
        }
    }
}

/// A partial map from pairs of `u64` keys (a class id and a token id) to
/// `u64` values, stored as a vector of `(class, token, value)` entries with
/// pairwise distinct key pairs.
pub struct PairTable {
    entries: Vec<(u64, u64, u64)>,
}

impl PairTable {
    /// The value the entry sequence `s` associates with the pair `(c, t)`:
    /// the first entry whose keys are `(c, t)`, if any.
    pub closed spec fn get_of(s: Seq<(u64, u64, u64)>, c: u64, t: u64) -> Option<u64>
        decreases s.len(),
    {
        if s.len() == 0 {
            None
        } else if s[0].0 == c && s[0].1 == t {
            Some(s[0].2)
        } else {
            Self::get_of(s.drop_first(), c, t)
        }
    }

    /// No two entries of `s` share a key pair.
    pub closed spec fn dup_free(s: Seq<(u64, u64, u64)>) -> bool {
        forall|i: int, j: int|
            0 <= i < j < s.len() ==> ((#[trigger] s[i]).0 != (#[trigger] s[j]).0
                || s[i].1 != s[j].1)
    }

    pub closed spec fn wf(self) -> bool {
        Self::dup_free(self.entries@)
    }

    /// The table as a partial map over key pairs.
    pub closed spec fn spec_get(self, c: u64, t: u64) -> Option<u64> {
        Self::get_of(self.entries@, c, t)
    }

    /// Entries before position `i` never hold `(c, t)`, so the search may as
    /// well start at `i`.
    proof fn lemma_get_skip(s: Seq<(u64, u64, u64)>, c: u64, t: u64, i: int)
        requires
            0 <= i <= s.len(),
            forall|j: int|
                0 <= j < i ==> ((#[trigger] s[j]).0 != c || s[j].1 != t),
        ensures
            Self::get_of(s, c, t) == Self::get_of(s.skip(i), c, t),
        decreases i,
    {
        if i == 0 {
            assert(s.skip(0) =~= s);
        } else {
            assert(s[0].0 != c || s[0].1 != t);
            assert(s.drop_first() =~= s.skip(1));
            assert(forall|j: int|
                0 <= j < i - 1 ==> ((#[trigger] s.drop_first()[j]).0 != c
                    || s.drop_first()[j].1 != t));
            Self::lemma_get_skip(s.drop_first(), c, t, i - 1);
            assert(s.drop_first().skip(i - 1) =~= s.skip(i));
        }
    }

    /// If the first entry holding `(c, t)` stands at position `i`, the map
    /// yields that entry's value.
    proof fn lemma_get_found(s: Seq<(u64, u64, u64)>, c: u64, t: u64, i: int)
        requires
            0 <= i < s.len(),
            forall|j: int|
                0 <= j < i ==> ((#[trigger] s[j]).0 != c || s[j].1 != t),
            s[i].0 == c,
            s[i].1 == t,
        ensures
            Self::get_of(s, c, t) == Some(s[i].2),
    {
        Self::lemma_get_skip(s, c, t, i);
        assert(s.skip(i)[0] == s[i]);
    }

    /// A key pair held by no entry is absent from the map.
    proof fn lemma_get_absent(s: Seq<(u64, u64, u64)>, c: u64, t: u64)
        requires
            forall|j: int|
                0 <= j < s.len() ==> ((#[trigger] s[j]).0 != c || s[j].1 != t),
        ensures
            Self::get_of(s, c, t) is None,
    {
        Self::lemma_get_skip(s, c, t, s.len() as int);
    }

    /// Appending an entry with a fresh key pair adds exactly that binding.
    proof fn lemma_get_push(s: Seq<(u64, u64, u64)>, e: (u64, u64, u64), c2: u64, t2: u64)
        requires
            forall|j: int|
                0 <= j < s.len() ==> ((#[trigger] s[j]).0 != e.0 || s[j].1 != e.1),
        ensures
            Self::get_of(s.push(e), c2, t2) == (if c2 == e.0 && t2 == e.1 {
                Some(e.2)
            } else {
                Self::get_of(s, c2, t2)
            }),
        decreases s.len(),
    {
        if s.len() == 0 {
            assert(s.push(e)[0] == e);
            if !(c2 == e.0 && t2 == e.1) {
                assert(s.push(e).drop_first() =~= s);
            }
        } else {
            assert(s.push(e)[0] == s[0]);
            assert(s.push(e).drop_first() =~= s.drop_first().push(e));
            assert(forall|j: int|
                0 <= j < s.drop_first().len()
                    ==> ((#[trigger] s.drop_first()[j]).0 != e.0
                        || s.drop_first()[j].1 != e.1));
            Self::lemma_get_push(s.drop_first(), e, c2, t2);
        }
    }

    /// Overwriting the entry that holds the keys of `e` in place rebinds that
    /// key pair and nothing else, and keeps the key pairs distinct.
    proof fn lemma_get_update(s: Seq<(u64, u64, u64)>, i: int, e: (u64, u64, u64), c2: u64, t2: u64)
        requires
            0 <= i < s.len(),
            s[i].0 == e.0,
            s[i].1 == e.1,
            Self::dup_free(s),
        ensures
            Self::get_of(s.update(i, e), c2, t2) == (if c2 == e.0 && t2 == e.1 {
                Some(e.2)
            } else {
                Self::get_of(s, c2, t2)
            }),
            Self::dup_free(s.update(i, e)),
        decreases i,
    {
        let u = s.update(i, e);
        assert forall|a: int, b: int| 0 <= a < b < u.len()
            implies ((#[trigger] u[a]).0 != (#[trigger] u[b]).0 || u[a].1 != u[b].1) by {
            assert(u[a].0 == s[a].0 && u[a].1 == s[a].1);
            assert(u[b].0 == s[b].0 && u[b].1 == s[b].1);
        }
        if i == 0 {
            if !(c2 == e.0 && t2 == e.1) {
                assert(u.drop_first() =~= s.drop_first());
                assert(s[0].0 != c2 || s[0].1 != t2);
            }
        } else {
            assert(u[0] == s[0]);
            assert(u.drop_first() =~= s.drop_first().update(i - 1, e));
            assert(Self::dup_free(s.drop_first())) by {
                assert forall|a: int, b: int|
                    0 <= a < b < s.drop_first().len()
                    implies ((#[trigger] s.drop_first()[a]).0
                        != (#[trigger] s.drop_first()[b]).0
                        || s.drop_first()[a].1 != s.drop_first()[b].1) by {
                    assert(s.drop_first()[a] == s[a + 1]);
                    assert(s.drop_first()[b] == s[b + 1]);
                }
            }
            assert(s[0].0 != e.0 || s[0].1 != e.1);
            Self::lemma_get_update(s.drop_first(), i - 1, e, c2, t2);
        }
    }

    /// Deleting the entry that holds `(c, t)` unbinds that key pair and
    /// nothing else, and keeps the key pairs distinct.
    proof fn lemma_get_remove(s: Seq<(u64, u64, u64)>, i: int, c2: u64, t2: u64)
        requires
            0 <= i < s.len(),
            Self::dup_free(s),
        ensures
            Self::get_of(s.remove(i), c2, t2) == (if c2 == s[i].0 && t2 == s[i].1 {
                None
            } else {
                Self::get_of(s, c2, t2)
            }),
            Self::dup_free(s.remove(i)),
        decreases i,
    {
        let u = s.remove(i);
        assert forall|a: int, b: int| 0 <= a < b < u.len()
            implies ((#[trigger] u[a]).0 != (#[trigger] u[b]).0 || u[a].1 != u[b].1) by {
            let a0 = if a < i { a } else { a + 1 };
            let b0 = if b < i { b } else { b + 1 };
            assert(u[a] == s[a0]);
            assert(u[b] == s[b0]);
        }
        if i == 0 {
            assert(u =~= s.drop_first());
            if c2 == s[0].0 && t2 == s[0].1 {
                assert forall|j: int| 0 <= j < u.len()
                    implies ((#[trigger] u[j]).0 != c2 || u[j].1 != t2) by {
                    assert(u[j] == s[j + 1]);
                }
                Self::lemma_get_absent(u, c2, t2);
            }
        } else {
            assert(u[0] == s[0]);
            assert(u.drop_first() =~= s.drop_first().remove(i - 1));
            assert(Self::dup_free(s.drop_first())) by {
                assert forall|a: int, b: int|
                    0 <= a < b < s.drop_first().len()
                    implies ((#[trigger] s.drop_first()[a]).0
                        != (#[trigger] s.drop_first()[b]).0
                        || s.drop_first()[a].1 != s.drop_first()[b].1) by {
                    assert(s.drop_first()[a] == s[a + 1]);
                    assert(s.drop_first()[b] == s[b + 1]);
                }
            }
            Self::lemma_get_remove(s.drop_first(), i - 1, c2, t2);
            assert(s.drop_first()[i - 1] == s[i]);
        }
    }

    pub fn new() -> (r: Self)
        ensures
            r.wf(),
            forall|c: u64, t: u64| #![trigger r.spec_get(c, t)] r.spec_get(c, t) is None,
    {
        let r = PairTable { entries: Vec::new() };
        proof {
            assert forall|c: u64, t: u64| r.spec_get(c, t) is None by {
                Self::lemma_get_absent(r.entries@, c, t);
            }
        }
        r
    }

    /// The position of the entry holding `(c, t)`, if there is one.
    fn find(&self, c: u64, t: u64) -> (r: Option<usize>)
        ensures
            match r {
                Some(i) => i < self.entries@.len() && self.entries@[i as int].0 == c
                    && self.entries@[i as int].1 == t
                    && forall|j: int|
                        0 <= j < i ==> ((#[trigger] self.entries@[j]).0 != c
                            || self.entries@[j].1 != t),
                None => self.spec_get(c, t) is None && forall|j: int|
                    0 <= j < self.entries@.len()
                        ==> ((#[trigger] self.entries@[j]).0 != c
                            || self.entries@[j].1 != t),
            },
    {
        let n = self.entries.len();
        let mut i: usize = 0;
        while i < n
            invariant
                i <= n,
                n == self.entries@.len(),
                forall|j: int|
                    0 <= j < i ==> ((#[trigger] self.entries@[j]).0 != c
                        || self.entries@[j].1 != t),
            decreases n - i,
        {
            if self.entries[i].0 == c && self.entries[i].1 == t {
                return Some(i);
            }
            i += 1;
        }
        proof {
            Self::lemma_get_absent(self.entries@, c, t);
        }
        None
    }

    pub fn get(&self, c: u64, t: u64) -> (r: Option<u64>)
        ensures
            r == self.spec_get(c, t),
    {
        match self.find(c, t) {
            Some(i) => {
                proof {
                    Self::lemma_get_found(self.entries@, c, t, i as int);
                }
                Some(self.entries[i].2)
            }
            None => None,
        }
    }

    /// Bind `(c, t)` to `v`, replacing any previous binding.
    pub fn insert(&mut self, c: u64, t: u64, v: u64)
        requires
            old(self).wf(),
        ensures
            final(self).wf(),
            final(self).spec_get(c, t) == Some(v),
            forall|c2: u64, t2: u64| #![trigger final(self).spec_get(c2, t2)]
                !(c2 == c && t2 == t)
                    ==> final(self).spec_get(c2, t2) == old(self).spec_get(c2, t2),
    {
        match self.find(c, t) {
            Some(i) => {
                let ghost s = self.entries@;
                self.entries.set(i, (c, t, v));
                proof {
                    assert forall|c2: u64, t2: u64|
                        self.spec_get(c2, t2) == (if c2 == c && t2 == t {
                            Some(v)
                        } else {
                            Self::get_of(s, c2, t2)
                        }) by {
                        Self::lemma_get_update(s, i as int, (c, t, v), c2, t2);
                    }
                }
            }
            None => {
                let ghost s = self.entries@;
                let ghost n = s.len() as int;
                self.entries.push((c, t, v));
                proof {
                    assert forall|a: int, b: int|
                        0 <= a < b < self.entries@.len()
                        implies ((#[trigger] self.entries@[a]).0
                            != (#[trigger] self.entries@[b]).0
                            || self.entries@[a].1 != self.entries@[b].1) by {
                        if b < n {
                        } else {
                            assert(self.entries@[a] == s[a]);
                            assert(self.entries@[b] == (c, t, v));
                        }
                    }
                    assert forall|c2: u64, t2: u64|
                        self.spec_get(c2, t2) == (if c2 == c && t2 == t {
                            Some(v)
                        } else {
                            Self::get_of(s, c2, t2)
                        }) by {
                        Self::lemma_get_push(s, (c, t, v), c2, t2);
                    }
                }
            }
        }
    }

    /// Unbind `(c, t)`, handing back the value it was bound to, if any.
    pub fn remove(&mut self, c: u64, t: u64) -> (r: Option<u64>)
        requires
            old(self).wf(),
        ensures
            final(self).wf(),
            r == old(self).spec_get(c, t),
            final(self).spec_get(c, t) is None,
            forall|c2: u64, t2: u64| #![trigger final(self).spec_get(c2, t2)]
                !(c2 == c && t2 == t)
                    ==> final(self).spec_get(c2, t2) == old(self).spec_get(c2, t2),
    {
        match self.find(c, t) {
            Some(i) => {
                let ghost s = self.entries@;
                proof {
                    Self::lemma_get_found(s, c, t, i as int);
                }
                let e = self.entries.remove(i);
                proof {
                    assert forall|c2: u64, t2: u64|
                        self.spec_get(c2, t2) == (if c2 == c && t2 == t {
                            None
                        } else {
                            Self::get_of(s, c2, t2)
                        }) by {
                        Self::lemma_get_remove(s, i as int, c2, t2);
                    }
                }
                Some(e.2)
            }
            None => None,
        }
    }
}

} // verus!
