//! Keyed tables.
//!
//! A `KeyedTable` is an insertion-ordered association list whose keys are
//! unique. It holds the entries of the generic partitioned key/value store
//! and of the handler registry, whose key and value types are parameters.
//! Its abstract model is a `Map` from key views to values, together with the
//! ordered sequence of entries (the order in which listings are produced).

use vstd::prelude::*;

verus! {

/// Keys that can be compared and copied with a known meaning.
pub trait TableKey: View + Sized {
    /// Key equality, by view.
    fn same_key(&self, other: &Self) -> (b: bool)
        ensures
            b == (self@ == other@),
    ;

    /// A copy of the key with the same view.
    fn copy_key(&self) -> (k: Self)
        ensures
            k@ == self@,
    ;
}

impl TableKey for String {
    fn same_key(&self, other: &Self) -> (b: bool) {
        *self == *other
    }

    fn copy_key(&self) -> (k: Self) {
        self.clone()
    }
}

/// An association list with unique keys.
pub struct KeyedTable<K, V> {
    entries: Vec<(K, V)>,
}

impl<K: TableKey, V> KeyedTable<K, V> {
    /// The entries, in table order.
    pub closed spec fn entries(&self) -> Seq<(K, V)> {
        self.entries@
    }

    /// The view of the key stored at position `i`.
    pub open spec fn key_at(&self, i: int) -> K::V {
        self.entries()[i].0@
    }

    /// Whether some entry has a key whose view is `k`.
    pub open spec fn has_key(&self, k: K::V) -> bool {
        exists|i: int| 0 <= i < self.entries().len() && #[trigger] self.key_at(i) == k
    }

    /// The position of the entry with key `k` (meaningful when `has_key(k)`).
    pub open spec fn index_of(&self, k: K::V) -> int {
        choose|i: int| 0 <= i < self.entries().len() && #[trigger] self.key_at(i) == k
    }

    /// The table as a map from key views to values.
    pub open spec fn map(&self) -> Map<K::V, V> {
        Map::new(|k: K::V| self.has_key(k), |k: K::V| self.entries()[self.index_of(k)].1)
    }

    /// Well-formedness: no two entries share a key.
    pub open spec fn wf(&self) -> bool {
        forall|i: int, j: int|
            0 <= i < self.entries().len() && 0 <= j < self.entries().len() && i != j
                ==> #[trigger] self.key_at(i) != #[trigger] self.key_at(j)
    }

    /// In a well-formed table, the entry at position `i` is the one the map
    /// shows for its key.
    pub proof fn lemma_entry(&self, i: int)
        requires
            self.wf(),
            0 <= i < self.entries().len(),
        ensures
            self.has_key(self.key_at(i)),
            self.index_of(self.key_at(i)) == i,
            self.map().contains_key(self.key_at(i)),
            self.map()[self.key_at(i)] == self.entries()[i].1,
    {
        assert(self.key_at(i) == self.key_at(i));
        let j = self.index_of(self.key_at(i));
        assert(0 <= j < self.entries().len() && self.key_at(j) == self.key_at(i));
    }

    /// In a well-formed table, every key of the map is stored at the position
    /// `index_of` gives.
    pub proof fn lemma_key(&self, k: K::V)
        requires
            self.wf(),
            self.map().contains_key(k),
        ensures
            0 <= self.index_of(k) < self.entries().len(),
            self.key_at(self.index_of(k)) == k,
            self.map()[k] == self.entries()[self.index_of(k)].1,
    {
    }

    pub fn new() -> (t: Self)
        ensures
            t.wf(),
            t.entries().len() == 0,
            t.map() == Map::<K::V, V>::empty(),
    {
        let t = KeyedTable { entries: Vec::new() };
        assert(t.map() =~= Map::<K::V, V>::empty());
        t
    }

    /// Number of entries.
    pub fn len(&self) -> (n: usize)
        ensures
            n == self.entries().len(),
    {
        self.entries.len()
    }

    /// The entry at position `i`.
    pub fn entry_at(&self, i: usize) -> (e: &(K, V))
        requires
            i < self.entries().len(),
        ensures
            *e == self.entries()[i as int],
    {
        &self.entries[i]
    }

    /// Position of the entry with key `k`, if there is one.
    pub fn find(&self, k: &K) -> (r: Option<usize>)
        requires
            self.wf(),
        ensures
            match r {
                Some(i) => i < self.entries().len() && self.key_at(i as int) == k@
                    && self.index_of(k@) == i,
                None => !self.has_key(k@) && !self.map().contains_key(k@),
            },
    {
        let n = self.entries.len();
        let mut i: usize = 0;
        while i < n
            invariant
                self.wf(),
                n == self.entries().len(),
                i <= n,
                forall|j: int| 0 <= j < i ==> #[trigger] self.key_at(j) != k@,
            decreases n - i,
        {
            let e = &self.entries[i];
            if e.0.same_key(k) {
                proof {
                    self.lemma_entry(i as int);
                }
                return Some(i);
            }
            i = i + 1;
        }
        None
    }

    /// The value stored under `k`, if any.
    pub fn get(&self, k: &K) -> (r: Option<&V>)
        requires
            self.wf(),
        ensures
            match r {
                Some(v) => self.map().contains_key(k@) && *v == self.map()[k@],
                None => !self.map().contains_key(k@),
            },
    {
        match self.find(k) {
            Some(i) => {
                proof {
                    self.lemma_entry(i as int);
                }
                Some(&self.entries[i].1)
            },
            None => None,
        }
    }

    /// Whether some entry has key `k`.
    pub fn contains(&self, k: &K) -> (b: bool)
        requires
            self.wf(),
        ensures
            b == self.map().contains_key(k@),
    {
        self.find(k).is_some()
    }

    /// Stores `v` under `k`: an existing entry keeps its position, a new key
    /// goes at the end.
    pub fn insert(&mut self, k: K, v: V)
        requires
            old(self).wf(),
        ensures
            final(self).wf(),
            final(self).map() == old(self).map().insert(k@, v),
            old(self).has_key(k@) ==> final(self).entries() == old(self).entries().update(
                old(self).index_of(k@),
                (k, v),
            ),
            !old(self).has_key(k@) ==> final(self).entries() == old(self).entries().push((k, v)),
    {
        let ghost old_t = *self;
        let ghost kv = k@;
        match self.find(&k) {
            Some(i) => {
                self.entries.set(i, (k, v));
                proof {
                    assert(self.entries() == old_t.entries().update(i as int, (k, v)));
                    assert forall|a: int, b: int|
                        0 <= a < self.entries().len() && 0 <= b < self.entries().len() && a != b
                            implies #[trigger] self.key_at(a) != #[trigger] self.key_at(b) by {
                        if a != i && b != i {
                            assert(self.key_at(a) == old_t.key_at(a));
                            assert(self.key_at(b) == old_t.key_at(b));
                        } else if a == i {
                            assert(self.key_at(b) == old_t.key_at(b));
                        } else {
                            assert(self.key_at(a) == old_t.key_at(a));
                        }
                    }
                    assert forall|key: K::V| #[trigger] self.has_key(key) == old_t.map().insert(
                        kv,
                        v,
                    ).contains_key(key) by {
                        if old_t.has_key(key) {
                            let j = old_t.index_of(key);
                            assert(self.key_at(j) == key || j == i);
                        }
                        if self.has_key(key) {
                            let j = self.index_of(key);
                            assert(j == i || old_t.key_at(j) == key);
                        }
                    }
                    assert forall|key: K::V| #[trigger] self.has_key(key) implies self.map()[key]
                        == old_t.map().insert(kv, v)[key] by {
                        let j = self.index_of(key);
                        self.lemma_key(key);
                        if key == kv {
                            self.lemma_entry(i as int);
                        } else {
                            assert(j != i);
                            assert(old_t.key_at(j) == key);
                            old_t.lemma_entry(j);
                        }
                    }
                    assert(self.map() =~= old_t.map().insert(kv, v));
                }
            },
            None => {
                self.entries.push((k, v));
                proof {
                    let n = old_t.entries().len() as int;
                    assert(self.entries() == old_t.entries().push((k, v)));
                    assert forall|a: int, b: int|
                        0 <= a < self.entries().len() && 0 <= b < self.entries().len() && a != b
                            implies #[trigger] self.key_at(a) != #[trigger] self.key_at(b) by {
                        if a != n && b != n {
                            assert(self.key_at(a) == old_t.key_at(a));
                            assert(self.key_at(b) == old_t.key_at(b));
                        } else if a == n {
                            assert(self.key_at(b) == old_t.key_at(b));
                        } else {
                            assert(self.key_at(a) == old_t.key_at(a));
                        }
                    }
                    assert forall|key: K::V| #[trigger] self.has_key(key) == old_t.map().insert(
                        kv,
                        v,
                    ).contains_key(key) by {
                        if old_t.has_key(key) {
                            let j = old_t.index_of(key);
                            assert(self.key_at(j) == key);
                        }
                        if key == kv {
                            assert(self.key_at(n) == kv);
                        }
                        if self.has_key(key) {
                            let j = self.index_of(key);
                            assert(j == n || old_t.key_at(j) == key);
                        }
                    }
                    assert forall|key: K::V| #[trigger] self.has_key(key) implies self.map()[key]
                        == old_t.map().insert(kv, v)[key] by {
                        let j = self.index_of(key);
                        self.lemma_key(key);
                        if key == kv {
                            self.lemma_entry(n);
                        } else {
                            assert(j != n);
                            assert(old_t.key_at(j) == key);
                            old_t.lemma_entry(j);
                        }
                    }
                    assert(self.map() =~= old_t.map().insert(kv, v));
                }
            },
        }
    }
}

} // verus!
