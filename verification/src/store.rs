//! The persistent key-value tables of the engine, modeled as association
//! lists with distinct keys and viewed as mathematical `Map`s. Every table
//! of the marketplace (color owners, glyph records, offer books, royalty
//! accruals) is an instance of `Store`.

use vstd::prelude::*;

verus! {

/// A key of a `Store`: a value with a mathematical abstraction `Abs` and an
/// executable equality test that decides equality of abstractions.
pub trait StoreKey: Sized {
    type Abs;

    spec fn abs(self) -> Self::Abs;

    fn key_eq(&self, other: &Self) -> (r: bool)
        ensures
            r == (self.abs() == other.abs()),
    ;
}

impl StoreKey for u32 {
    type Abs = u32;

    open spec fn abs(self) -> u32 {
        self
    }

    fn key_eq(&self, other: &Self) -> (r: bool) {
        *self == *other
    }
}

/// A table from keys to values, with at most one entry per key.
pub struct Store<K, V> {
    entries: Vec<(K, V)>,
}

/// The map described by a sequence of key-value pairs; a later entry for the
/// same key would win, but well-formed stores have distinct keys.
pub open spec fn entries_map<K: StoreKey, V>(s: Seq<(K, V)>) -> Map<K::Abs, V>
    decreases s.len(),
{
    if s.len() == 0 {
        Map::empty()
    } else {
        entries_map(s.drop_last()).insert(s.last().0.abs(), s.last().1)
    }
}

/// Entry keys are pairwise distinct (as abstractions).
pub open spec fn entries_distinct<K: StoreKey, V>(s: Seq<(K, V)>) -> bool {
    forall|i: int, j: int|
        0 <= i < j < s.len() ==> s[i].0.abs() != s[j].0.abs()
}

proof fn lemma_entries_map_contains<K: StoreKey, V>(s: Seq<(K, V)>, k: K::Abs)
    ensures
        entries_map(s).contains_key(k) <==> exists|i: int|
            0 <= i < s.len() && s[i].0.abs() == k,
    decreases s.len(),
{
    if s.len() > 0 {
        lemma_entries_map_contains(s.drop_last(), k);
        if s.last().0.abs() == k {
            assert(s[s.len() - 1].0.abs() == k);
        } else if entries_map(s).contains_key(k) {
            let i = choose|i: int| 0 <= i < s.drop_last().len() && s.drop_last()[i].0.abs() == k;
            assert(s[i].0.abs() == k);
        } else if exists|i: int| 0 <= i < s.len() && s[i].0.abs() == k {
            let i = choose|i: int| 0 <= i < s.len() && s[i].0.abs() == k;
            assert(s.drop_last()[i].0.abs() == k);
        }
    }
}

proof fn lemma_entries_map_index<K: StoreKey, V>(s: Seq<(K, V)>, i: int)
    requires
        entries_distinct(s),
        0 <= i < s.len(),
    ensures
        entries_map(s).contains_key(s[i].0.abs()),
        entries_map(s)[s[i].0.abs()] == s[i].1,
    decreases s.len(),
{
    if i == s.len() - 1 {
    } else {
        lemma_entries_map_index(s.drop_last(), i);
        assert(s.drop_last()[i] == s[i]);
    }
}

proof fn lemma_entries_map_update<K: StoreKey, V>(s: Seq<(K, V)>, i: int, e: (K, V))
    requires
        entries_distinct(s),
        0 <= i < s.len(),
        e.0.abs() == s[i].0.abs(),
    ensures
        entries_map(s.update(i, e)) =~= entries_map(s).insert(e.0.abs(), e.1),
    decreases s.len(),
{
    let t = s.update(i, e);
    if i == s.len() - 1 {
        assert(t.drop_last() =~= s.drop_last());
    } else {
        lemma_entries_map_update(s.drop_last(), i, e);
        assert(t.drop_last() =~= s.drop_last().update(i, e));
        assert(t.last() == s.last());
        // the last key differs from e's key, so the two inserts commute
        assert(s.last().0.abs() != e.0.abs());
    }
}

proof fn lemma_entries_map_remove<K: StoreKey, V>(s: Seq<(K, V)>, i: int)
    requires
        entries_distinct(s),
        0 <= i < s.len(),
    ensures
        entries_map(s.remove(i)) =~= entries_map(s).remove(s[i].0.abs()),
    decreases s.len(),
{
    let t = s.remove(i);
    if i == s.len() - 1 {
        assert(t =~= s.drop_last());
        lemma_entries_map_contains(s.drop_last(), s[i].0.abs());
        assert(!entries_map(s.drop_last()).contains_key(s[i].0.abs()));
        assert(entries_map(s.drop_last()).remove(s[i].0.abs()) =~= entries_map(s.drop_last()));
    } else {
        lemma_entries_map_remove(s.drop_last(), i);
        assert(t.drop_last() =~= s.drop_last().remove(i));
        assert(t.last() == s.last());
        assert(s.last().0.abs() != s[i].0.abs());
    }
}

impl<K: StoreKey, V> Store<K, V> {
    /// The mathematical content of the table.
    pub closed spec fn as_map(self) -> Map<K::Abs, V> {
        entries_map(self.entries@)
    }

    /// Well-formedness: one entry per key.
    pub closed spec fn wf(self) -> bool {
        entries_distinct(self.entries@)
    }

    pub fn new() -> (r: Self)
        ensures
            r.wf(),
            r.as_map() =~= Map::empty(),
    {
        Store { entries: Vec::new() }
    }

    fn find(&self, key: &K) -> (r: Option<usize>)
        ensures
            match r {
                Some(i) => i < self.entries@.len() && self.entries@[i as int].0.abs()
                    == key.abs(),
                None => forall|i: int|
                    0 <= i < self.entries@.len() ==> self.entries@[i].0.abs() != key.abs(),
            },
    {
        let n = self.entries.len();
        let mut i: usize = 0;
        while i < n
            invariant
                n == self.entries@.len(),
                i <= n,
                forall|j: int| 0 <= j < i ==> self.entries@[j].0.abs() != key.abs(),
            decreases n - i,
        {
            if self.entries[i].0.key_eq(key) {
                return Some(i);
            }
            i = i + 1;
        }
        None
    }

    pub fn contains(&self, key: &K) -> (r: bool)
        ensures
            r == self.as_map().contains_key(key.abs()),
    {
        proof {
            lemma_entries_map_contains(self.entries@, key.abs());
        }
        self.find(key).is_some()
    }

    pub fn get(&self, key: &K) -> (r: Option<&V>)
        requires
            self.wf(),
        ensures
            match r {
                Some(v) => self.as_map().contains_key(key.abs()) && *v == self.as_map()[key.abs()],
                None => !self.as_map().contains_key(key.abs()),
            },
    {
        proof {
            lemma_entries_map_contains(self.entries@, key.abs());
        }
        match self.find(key) {
            Some(i) => {
                proof {
                    lemma_entries_map_index(self.entries@, i as int);
                }
                Some(&self.entries[i].1)
            },
            None => None,
        }
    }

    /// Insert or overwrite.
    pub fn set(&mut self, key: K, value: V)
        requires
            old(self).wf(),
        ensures
            final(self).wf(),
            final(self).as_map() =~= old(self).as_map().insert(key.abs(), value),
    {
        proof {
            lemma_entries_map_contains(self.entries@, key.abs());
        }
        match self.find(&key) {
            Some(i) => {
                proof {
                    lemma_entries_map_update(self.entries@, i as int, (key, value));
                }
                self.entries.set(i, (key, value));
            },
            None => {
                let ghost s0 = self.entries@;
                self.entries.push((key, value));
                proof {
                    assert(self.entries@.drop_last() =~= s0);
                }
            },
        }
    }

    /// Remove the entry for a key, if any.
    pub fn remove(&mut self, key: &K)
        requires
            old(self).wf(),
        ensures
            final(self).wf(),
            final(self).as_map() =~= old(self).as_map().remove(key.abs()),
    {
        proof {
            lemma_entries_map_contains(self.entries@, key.abs());
        }
        match self.find(key) {
            Some(i) => {
                proof {
                    lemma_entries_map_remove(self.entries@, i as int);
                }
                self.entries.remove(i);
            },
            None => {
                proof {
                    assert(self.as_map().remove(key.abs()) =~= self.as_map());
                }
            },
        }
    }
}

} // verus!
