//! A finite map over keys that can be compared by their views.

use vstd::prelude::*;
use crate::addr::Addr;

verus! {

/// A key that can be compared and copied by its view.
pub trait MapKey: View + Sized {
    fn same_key(&self, other: &Self) -> (same: bool)
        ensures
            same == (self@ == other@),
    ;

    fn copy_key(&self) -> (k: Self)
        ensures
            k@ == self@,
    ;
}

impl MapKey for u64 {
    fn same_key(&self, other: &Self) -> (same: bool) {
        *self == *other
    }

    fn copy_key(&self) -> (k: Self) {
        *self
    }
}

impl MapKey for [u8; 32] {
    fn same_key(&self, other: &Self) -> (same: bool) {
        let mut i: usize = 0;
        while i < 32
            invariant
                i <= 32,
                forall|j: int| 0 <= j < i ==> self@[j] == other@[j],
            decreases 32 - i,
        {
            if self[i] != other[i] {
                return false;
            }
            i = i + 1;
        }
        assert(self@ =~= other@);
        true
    }

    fn copy_key(&self) -> (k: Self) {
        *self
    }
}

impl MapKey for Addr {
    fn same_key(&self, other: &Self) -> (same: bool) {
        self.same(other)
    }

    fn copy_key(&self) -> (k: Self) {
        self.duplicate()
    }
}

impl MapKey for (Addr, Addr) {
    fn same_key(&self, other: &Self) -> (same: bool) {
        self.0.same(&other.0) && self.1.same(&other.1)
    }

    fn copy_key(&self) -> (k: Self) {
        (self.0.duplicate(), self.1.duplicate())
    }
}

/// A map from keys to values, kept as a list of entries in which no two
/// keys have the same view.
pub struct KeyMap<K, V> {
    entries: Vec<(K, V)>,
}

impl<K: MapKey, V: View> View for KeyMap<K, V> {
    type V = Map<K::V, V::V>;

    closed spec fn view(&self) -> Map<K::V, V::V> {
        Map::new(
            |k: K::V| exists|i: int| self.holds_at(i, k),
            |k: K::V| self.entries@[choose|i: int| self.holds_at(i, k)].1@,
        )
    }
}

impl<K: MapKey, V: View> KeyMap<K, V> {
    /// Entry `i` holds key `k`.
    pub closed spec fn holds_at(self, i: int, k: K::V) -> bool {
        0 <= i < self.entries@.len() && self.entries@[i].0@ == k
    }

    /// No two entries hold the same key.
    pub closed spec fn wf(self) -> bool {
        forall|i: int, j: int|
            0 <= i < self.entries@.len() && 0 <= j < self.entries@.len() && i != j
                ==> #[trigger] self.entries@[i].0@ != #[trigger] self.entries@[j].0@
    }

    proof fn lemma_entry(self, i: int)
        requires
            self.wf(),
            0 <= i < self.entries@.len(),
        ensures
            self.view().dom().contains(self.entries@[i].0@),
            self.view()[self.entries@[i].0@] == self.entries@[i].1@,
    {
        let k = self.entries@[i].0@;
        assert(self.holds_at(i, k));
        let j = choose|j: int| self.holds_at(j, k);
        assert(self.entries@[j].0@ == self.entries@[i].0@);
    }

    /// The empty map.
    pub fn new() -> (m: Self)
        ensures
            m.wf(),
            m.view() == Map::<K::V, V::V>::empty(),
    {
        let m = KeyMap { entries: Vec::new() };
        assert(m.view() =~= Map::<K::V, V::V>::empty());
        m
    }

    /// The index of the entry that holds `k`, if any.
    fn find(&self, k: &K) -> (r: Option<usize>)
        requires
            self.wf(),
        ensures
            match r {
                Some(i) => self.holds_at(i as int, k@),
                None => !self.view().dom().contains(k@),
            },
    {
        let n = self.entries.len();
        for i in 0..n
            invariant
                n == self.entries@.len(),
                forall|j: int| 0 <= j < i ==> !self.holds_at(j, k@),
        {
            if self.entries[i].0.same_key(k) {
                return Some(i);
            }
        }
        None
    }

    /// Whether `k` has an entry.
    pub fn contains_key(&self, k: &K) -> (r: bool)
        requires
            self.wf(),
        ensures
            r == self.view().dom().contains(k@),
    {
        match self.find(k) {
            Some(i) => {
                proof {
                    self.lemma_entry(i as int);
                }
                true
            },
            None => false,
        }
    }

    /// The value stored under `k`, if any.
    pub fn get(&self, k: &K) -> (r: Option<&V>)
        requires
            self.wf(),
        ensures
            match r {
                Some(v) => self.view().dom().contains(k@) && v@ == self.view()[k@],
                None => !self.view().dom().contains(k@),
            },
    {
        match self.find(k) {
            Some(i) => {
                proof {
                    self.lemma_entry(i as int);
                }
                Some(&self.entries[i].1)
            },
            None => None,
        }
    }

    /// Stores `v` under `k`, replacing what was there.
    pub fn insert(&mut self, k: K, v: V)
        requires
            old(self).wf(),
        ensures
            final(self).wf(),
            final(self).view() == old(self).view().insert(k@, v@),
    {
        let ghost kv = k@;
        let ghost vv = v@;
        let ghost before = *self;
        match self.find(&k) {
            Some(i) => {
                self.entries.set(i, (k, v));
                proof {
                    assert(self.entries@ == before.entries@.update(i as int, (k, v)));
                    assert forall|a: int, b: int|
                        0 <= a < self.entries@.len() && 0 <= b < self.entries@.len() && a != b
                            implies #[trigger] self.entries@[a].0@ != #[trigger] self.entries@[b].0@ by {
                        assert(before.entries@[a].0@ != before.entries@[b].0@);
                    }
                    assert forall|k2: K::V| #[trigger] self.view().dom().contains(k2)
                        == before.view().insert(kv, vv).dom().contains(k2) by {
                        if exists|j: int| before.holds_at(j, k2) {
                            let j = choose|j: int| before.holds_at(j, k2);
                            assert(self.holds_at(j, k2));
                        }
                        if exists|j: int| self.holds_at(j, k2) {
                            let j = choose|j: int| self.holds_at(j, k2);
                            assert(before.holds_at(j, k2));
                        }
                    }
                    assert forall|k2: K::V| #[trigger] self.view().dom().contains(k2)
                        implies self.view()[k2] == before.view().insert(kv, vv)[k2] by {
                        let j = choose|j: int| self.holds_at(j, k2);
                        self.lemma_entry(j);
                        before.lemma_entry(j);
                    }
                    assert(self.view() =~= before.view().insert(kv, vv));
                }
            },
            None => {
                self.entries.push((k, v));
                proof {
                    let n = before.entries@.len() as int;
                    assert(self.entries@ == before.entries@.push((k, v)));
                    assert forall|a: int, b: int|
                        0 <= a < self.entries@.len() && 0 <= b < self.entries@.len() && a != b
                            implies #[trigger] self.entries@[a].0@ != #[trigger] self.entries@[b].0@ by {
                        if a == n {
                            assert(before.holds_at(b, self.entries@[b].0@));
                        } else if b == n {
                            assert(before.holds_at(a, self.entries@[a].0@));
                        } else {
                            assert(before.entries@[a].0@ != before.entries@[b].0@);
                        }
                    }
                    assert forall|k2: K::V| #[trigger] self.view().dom().contains(k2)
                        == before.view().insert(kv, vv).dom().contains(k2) by {
                        if exists|j: int| before.holds_at(j, k2) {
                            let j = choose|j: int| before.holds_at(j, k2);
                            assert(self.holds_at(j, k2));
                        }
                        if k2 == kv {
                            assert(self.holds_at(n, k2));
                        }
                        if exists|j: int| self.holds_at(j, k2) {
                            let j = choose|j: int| self.holds_at(j, k2);
                            if j < n {
                                assert(before.holds_at(j, k2));
                            }
                        }
                    }
                    assert forall|k2: K::V| #[trigger] self.view().dom().contains(k2)
                        implies self.view()[k2] == before.view().insert(kv, vv)[k2] by {
                        let j = choose|j: int| self.holds_at(j, k2);
                        self.lemma_entry(j);
                        if j < n {
                            before.lemma_entry(j);
                        }
                    }
                    assert(self.view() =~= before.view().insert(kv, vv));
                }
            },
        }
    }
}

} // verus!
