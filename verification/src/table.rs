//! A finite key-value table stored as a list of distinct keys with values.

use vstd::prelude::*;

use crate::types::{Address, BalanceKey, Symbol};

verus! {

/// Keys whose executable equality coincides with mathematical equality.
pub trait KeyEq: Copy + Sized {
    fn key_eq(&self, other: &Self) -> (r: bool)
        ensures
            r == (*self == *other),
    ;
}

impl KeyEq for Address {
    fn key_eq(&self, other: &Self) -> (r: bool) {
        *self == *other
    }
}

impl KeyEq for Symbol {
    fn key_eq(&self, other: &Self) -> (r: bool) {
        *self == *other
    }
}

impl KeyEq for u64 {
    fn key_eq(&self, other: &Self) -> (r: bool) {
        *self == *other
    }
}

impl KeyEq for BalanceKey {
    fn key_eq(&self, other: &Self) -> (r: bool) {
        *self == *other
    }
}

/// Returns `true` if `v` holds `k`.
pub fn vec_contains<K: KeyEq>(v: &Vec<K>, k: &K) -> (r: bool)
    ensures
        r == v@.contains(*k),
{
    let mut i: usize = 0;
    while i < v.len()
        invariant
            i <= v.len(),
            forall|j: int| 0 <= j < i ==> v@[j] != *k,
        decreases v.len() - i,
    {
        if v[i].key_eq(k) {
            return true;
        }
        i = i + 1;
    }
    false
}

/// The value stored for `k` in `m`, or `default` when there is none.
pub open spec fn get_or<K, V>(m: Map<K, V>, k: K, default: V) -> V {
    if m.contains_key(k) {
        m[k]
    } else {
        default
    }
}

/// The map that storing `entries` in order produces, a later entry for a
/// key replacing an earlier one.
pub open spec fn entries_map<K, V>(entries: Seq<(K, V)>) -> Map<K, V>
    decreases entries.len(),
{
    if entries.len() == 0 {
        Map::empty()
    } else {
        entries_map(entries.drop_last()).insert(entries.last().0, entries.last().1)
    }
}

/// With distinct keys, storing `entries` keeps every entry.
proof fn lemma_entries_map_distinct<K, V>(entries: Seq<(K, V)>)
    requires
        forall|i: int, j: int|
            0 <= i < entries.len() && 0 <= j < entries.len() && i != j ==> entries[i].0 != entries[j].0,
    ensures
        forall|i: int|
            0 <= i < entries.len() ==> #[trigger] entries_map(entries).contains_key(entries[i].0)
                && entries_map(entries)[entries[i].0] == entries[i].1,
        forall|k: K|
            #[trigger] entries_map(entries).contains_key(k) ==> exists|i: int| 0 <= i < entries.len() && entries[i].0 == k,
    decreases entries.len(),
{
    if entries.len() > 0 {
        let rest = entries.drop_last();
        assert forall|i: int, j: int| 0 <= i < rest.len() && 0 <= j < rest.len() && i != j implies rest[i].0
            != rest[j].0 by {
            assert(rest[i] == entries[i] && rest[j] == entries[j]);
        }
        lemma_entries_map_distinct(rest);
        let n = entries.len() - 1;
        assert forall|i: int| 0 <= i < entries.len() implies #[trigger] entries_map(entries).contains_key(
            entries[i].0,
        ) && entries_map(entries)[entries[i].0] == entries[i].1 by {
            if i < n {
                assert(rest[i] == entries[i]);
                assert(entries_map(rest).contains_key(rest[i].0));
                assert(entries[i].0 != entries[n].0);
            }
        }
        assert forall|k: K| #[trigger] entries_map(entries).contains_key(k) implies exists|i: int|
            0 <= i < entries.len() && entries[i].0 == k by {
            if k == entries[n].0 {
                assert(entries[n].0 == k);
            } else {
                assert(entries_map(rest).contains_key(k));
                let i = choose|i: int| 0 <= i < rest.len() && rest[i].0 == k;
                assert(entries[i].0 == k);
            }
        }
    }
}

/// A finite map from keys to values.
#[verifier::reject_recursive_types(K)]
pub struct Table<K, V> {
    entries: Vec<(K, V)>,
    contents: Ghost<Map<K, V>>,
}

impl<K, V> View for Table<K, V> {
    type V = Map<K, V>;

    closed spec fn view(&self) -> Map<K, V> {
        self.contents@
    }
}

impl<K: KeyEq, V: Copy> Table<K, V> {
    /// The stored entries agree with the map view and keys are distinct.
    pub closed spec fn wf(&self) -> bool {
        &&& forall|i: int|
            0 <= i < self.entries@.len() ==> {
                &&& self.contents@.contains_key(#[trigger] self.entries@[i].0)
                &&& self.contents@[self.entries@[i].0] == self.entries@[i].1
            }
        &&& forall|k: K|
            #[trigger] self.contents@.contains_key(k) ==> exists|i: int|
                0 <= i < self.entries@.len() && #[trigger] self.entries@[i].0 == k
        &&& forall|i: int, j: int|
            0 <= i < self.entries@.len() && 0 <= j < self.entries@.len() && i != j
                ==> self.entries@[i].0 != self.entries@[j].0
    }

    /// Creates an empty table.
    pub fn new() -> (r: Self)
        ensures
            r.wf(),
            r@ == Map::<K, V>::empty(),
    {
        Table { entries: Vec::new(), contents: Ghost(Map::empty()) }
    }

    /// The index of `k`'s entry, if any.
    fn find(&self, k: &K) -> (r: Option<usize>)
        requires
            self.wf(),
        ensures
            match r {
                Some(i) => i < self.entries@.len() && self.entries@[i as int].0 == *k,
                None => !self@.contains_key(*k),
            },
    {
        let mut i: usize = 0;
        while i < self.entries.len()
            invariant
                i <= self.entries@.len(),
                forall|j: int| 0 <= j < i ==> self.entries@[j].0 != *k,
            decreases self.entries.len() - i,
        {
            if self.entries[i].0.key_eq(k) {
                return Some(i);
            }
            i = i + 1;
        }
        proof {
            if self@.contains_key(*k) {
                let j = choose|j: int| 0 <= j < self.entries@.len() && #[trigger] self.entries@[j].0 == *k;
                assert(self.entries@[j].0 == *k);
            }
        }
        None
    }

    /// The value stored for `k`, if any.
    pub fn get(&self, k: &K) -> (r: Option<V>)
        requires
            self.wf(),
        ensures
            r == (if self@.contains_key(*k) {
                Some(self@[*k])
            } else {
                None::<V>
            }),
    {
        match self.find(k) {
            Some(i) => Some(self.entries[i].1),
            None => None,
        }
    }

    /// Returns `true` if `k` has a value.
    pub fn contains(&self, k: &K) -> (r: bool)
        requires
            self.wf(),
        ensures
            r == self@.contains_key(*k),
    {
        self.find(k).is_some()
    }

    /// Stores `v` for `k`, replacing any previous value.
    pub fn set(&mut self, k: K, v: V)
        requires
            old(self).wf(),
        ensures
            final(self).wf(),
            final(self)@ == old(self)@.insert(k, v),
    {
        let ghost new_map = self.contents@.insert(k, v);
        match self.find(&k) {
            Some(i) => {
                self.entries.set(i, (k, v));
                self.contents = Ghost(new_map);
                assert forall|kk: K| #[trigger] self.contents@.contains_key(kk) implies exists|j: int|
                    0 <= j < self.entries@.len() && #[trigger] self.entries@[j].0 == kk by {
                    if kk != k {
                        assert(old(self).contents@.contains_key(kk));
                        let j = choose|j: int| 0 <= j < old(self).entries@.len() && #[trigger] old(self).entries@[j].0 == kk;
                        assert(self.entries@[j].0 == kk);
                    } else {
                        assert(self.entries@[i as int].0 == kk);
                    }
                }
            },
            None => {
                self.entries.push((k, v));
                self.contents = Ghost(new_map);
                assert forall|kk: K| #[trigger] self.contents@.contains_key(kk) implies exists|j: int|
                    0 <= j < self.entries@.len() && #[trigger] self.entries@[j].0 == kk by {
                    if kk != k {
                        assert(old(self).contents@.contains_key(kk));
                        let j = choose|j: int| 0 <= j < old(self).entries@.len() && #[trigger] old(self).entries@[j].0 == kk;
                        assert(self.entries@[j].0 == kk);
                    } else {
                        assert(self.entries@[self.entries@.len() - 1].0 == kk);
                    }
                }
            },
        }
    }

    /// Removes any value stored for `k`.
    pub fn remove(&mut self, k: &K)
        requires
            old(self).wf(),
        ensures
            final(self).wf(),
            final(self)@ == old(self)@.remove(*k),
    {
        let ghost new_map = self.contents@.remove(*k);
        match self.find(k) {
            Some(i) => {
                let ghost pre = self.entries@;
                self.entries.remove(i);
                self.contents = Ghost(new_map);
                assert forall|a: int| 0 <= a < self.entries@.len() implies self.entries@[a] == (if a < i {
                    pre[a]
                } else {
                    pre[a + 1]
                }) by {}
                assert forall|kk: K| #[trigger] self.contents@.contains_key(kk) implies exists|j: int|
                    0 <= j < self.entries@.len() && #[trigger] self.entries@[j].0 == kk by {
                    assert(old(self).contents@.contains_key(kk));
                    let j = choose|j: int| 0 <= j < pre.len() && #[trigger] pre[j].0 == kk;
                    if j < i {
                        assert(self.entries@[j].0 == kk);
                    } else {
                        assert(j != i);
                        assert(self.entries@[j - 1].0 == kk);
                    }
                }
                assert forall|a: int, b: int|
                    0 <= a < self.entries@.len() && 0 <= b < self.entries@.len() && a != b
                        implies self.entries@[a].0 != self.entries@[b].0 by {
                    let a2 = if a < i { a } else { a + 1 };
                    let b2 = if b < i { b } else { b + 1 };
                    assert(pre[a2].0 != pre[b2].0);
                }
                assert forall|a: int| 0 <= a < self.entries@.len() implies {
                    &&& self.contents@.contains_key(#[trigger] self.entries@[a].0)
                    &&& self.contents@[self.entries@[a].0] == self.entries@[a].1
                } by {
                    let a2 = if a < i { a } else { a + 1 };
                    assert(pre[a2].0 != pre[i as int].0);
                }
            },
            None => {
                assert(self.contents@.remove(*k) =~= self.contents@);
            },
        }
    }

    /// Creates the table that storing `entries` in order produces, a later
    /// entry for a key replacing an earlier one.
    pub fn from_entries(entries: &Vec<(K, V)>) -> (r: Self)
        ensures
            r.wf(),
            r@ == entries_map(entries@),
    {
        let mut r = Self::new();
        let mut i: usize = 0;
        while i < entries.len()
            invariant
                i <= entries@.len(),
                r.wf(),
                r@ == entries_map(entries@.take(i as int)),
            decreases entries.len() - i,
        {
            let (k, v) = entries[i];
            r.set(k, v);
            proof {
                assert(entries@.take(i + 1).drop_last() =~= entries@.take(i as int));
            }
            i = i + 1;
        }
        assert(entries@.take(entries@.len() as int) =~= entries@);
        r
    }

    /// The stored entries, each key once, in storage order.
    pub fn entries(&self) -> (r: Vec<(K, V)>)
        requires
            self.wf(),
        ensures
            entries_map(r@) == self@,
            forall|i: int, j: int| 0 <= i < r@.len() && 0 <= j < r@.len() && i != j ==> r@[i].0 != r@[j].0,
    {
        let mut r: Vec<(K, V)> = Vec::new();
        let mut i: usize = 0;
        while i < self.entries.len()
            invariant
                i <= self.entries@.len(),
                r@ == self.entries@.take(i as int),
            decreases self.entries.len() - i,
        {
            r.push(self.entries[i]);
            i = i + 1;
            assert(r@ =~= self.entries@.take(i as int));
        }
        assert(r@ =~= self.entries@);
        proof {
            lemma_entries_map_distinct(r@);
            assert(entries_map(r@) =~= self@);
        }
        r
    }

    /// Returns an identical copy of the table.
    pub fn copy(&self) -> (r: Self)
        requires
            self.wf(),
        ensures
            r.wf(),
            r@ == self@,
    {
        let mut entries: Vec<(K, V)> = Vec::new();
        let mut i: usize = 0;
        while i < self.entries.len()
            invariant
                i <= self.entries@.len(),
                entries@ == self.entries@.take(i as int),
            decreases self.entries.len() - i,
        {
            entries.push(self.entries[i]);
            i = i + 1;
            assert(entries@ =~= self.entries@.take(i as int));
        }
        assert(entries@ =~= self.entries@);
        let r = Table { entries, contents: Ghost(self.contents@) };
        assert(r.entries@ == self.entries@);
        r
    }
}

} // verus!
