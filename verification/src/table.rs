//! A small association table with keys that are compared by their views.
//!
//! The simulation keys its tables by addresses and endpoints, which hold
//! strings. The table keeps its entries in insertion order, holds each key at
//! most once, and presents itself to contracts as a `Map` from key views to
//! values.

use vstd::prelude::*;
use crate::packet::Endpoint;

verus! {

/// A key of a [`Table`]: two keys are the same key when their views agree.
pub trait Key: View + Sized {
    /// Whether both keys have the same view.
    fn same(&self, other: &Self) -> (b: bool)
        ensures
            b == (self@ == other@),
    ;

    /// A fresh key with the same view.
    fn duplicate(&self) -> (c: Self)
        ensures
            c@ == self@,
    ;
}

impl Key for String {
    fn same(&self, other: &Self) -> (b: bool) {
        *self == *other
    }

    fn duplicate(&self) -> (c: Self) {
        self.clone()
    }
}

impl Key for Endpoint {
    fn same(&self, other: &Self) -> (b: bool) {
        self.ip == other.ip && self.port == other.port
    }

    fn duplicate(&self) -> (c: Self) {
        self.clone()
    }
}

impl Key for (String, String) {
    fn same(&self, other: &Self) -> (b: bool) {
        self.0 == other.0 && self.1 == other.1
    }

    fn duplicate(&self) -> (c: Self) {
        (self.0.clone(), self.1.clone())
    }
}

/// An association table in insertion order.
#[derive(Debug)]
pub struct Table<K: Key, V> {
    entries: Vec<(K, V)>,
}

impl<K: Key, V> Table<K, V> {
    /// Whether some entry has a key with view `k`.
    pub closed spec fn has(&self, k: K::V) -> bool {
        exists|i: int| 0 <= i < self.entries@.len() && (#[trigger] self.entries@[i]).0@ == k
    }

    /// The position of the entry whose key has view `k`.
    pub closed spec fn slot(&self, k: K::V) -> int {
        choose|i: int| 0 <= i < self.entries@.len() && (#[trigger] self.entries@[i]).0@ == k
    }

    /// No key occurs twice.
    pub closed spec fn wf(&self) -> bool {
        forall|i: int, j: int|
            0 <= i < j < self.entries@.len() ==> (#[trigger] self.entries@[i]).0@ != (
            #[trigger] self.entries@[j]).0@
    }

    /// The table as a map from key views to values.
    pub closed spec fn view(&self) -> Map<K::V, V> {
        Map::new(|k: K::V| self.has(k), |k: K::V| self.entries@[self.slot(k)].1)
    }

    /// The views of the keys, in insertion order.
    pub closed spec fn key_order(&self) -> Seq<K::V> {
        Seq::new(self.entries@.len(), |i: int| self.entries@[i].0@)
    }

    /// The keys in insertion order are exactly the keys of the map, each once.
    pub proof fn lemma_key_order(&self)
        requires
            self.wf(),
        ensures
            self.key_order().no_duplicates(),
            forall|k: K::V| self.key_order().contains(k) <==> #[trigger] self@.contains_key(k),
    {
        let order = self.key_order();
        assert forall|k: K::V| order.contains(k) <==> #[trigger] self@.contains_key(k) by {
            if order.contains(k) {
                let i = choose|i: int| 0 <= i < order.len() && order[i] == k;
                assert(self.entries@[i].0@ == k);
            }
            if self@.contains_key(k) {
                let i = self.slot(k);
                assert(order[i] == k);
            }
        }
    }

    proof fn lemma_entry(&self, i: int)
        requires
            self.wf(),
            0 <= i < self.entries@.len(),
        ensures
            self.has(self.entries@[i].0@),
            self.slot(self.entries@[i].0@) == i,
            self@.contains_key(self.entries@[i].0@),
            self@[self.entries@[i].0@] == self.entries@[i].1,
    {
        let k = self.entries@[i].0@;
        assert(self.has(k));
        let j = self.slot(k);
        assert(0 <= j < self.entries@.len() && self.entries@[j].0@ == k);
        if j < i {
            assert(self.entries@[j].0@ != self.entries@[i].0@);
        } else if i < j {
            assert(self.entries@[i].0@ != self.entries@[j].0@);
        }
    }

    /// An empty table.
    pub fn new() -> (t: Table<K, V>)
        ensures
            t.wf(),
            t@ == Map::<K::V, V>::empty(),
    {
        let t = Table { entries: Vec::new() };
        assert(t@ =~= Map::<K::V, V>::empty());
        t
    }

    /// The number of entries.
    pub fn len(&self) -> (n: usize)
        requires
            self.wf(),
        ensures
            n == self.key_order().len(),
    {
        self.entries.len()
    }

    fn position(&self, key: &K) -> (found: Option<usize>)
        ensures
            match found {
                Some(i) => i < self.entries@.len() && self.entries@[i as int].0@ == key@,
                None => !self.has(key@),
            },
    {
        let mut i: usize = 0;
        while i < self.entries.len()
            invariant
                i <= self.entries@.len(),
                forall|j: int| 0 <= j < i ==> (#[trigger] self.entries@[j]).0@ != key@,
            decreases self.entries@.len() - i,
        {
            if self.entries[i].0.same(key) {
                return Some(i);
            }
            i += 1;
        }
        None
    }

    /// Whether the table holds `key`.
    pub fn contains_key(&self, key: &K) -> (b: bool)
        requires
            self.wf(),
        ensures
            b == self@.contains_key(key@),
    {
        self.position(key).is_some()
    }

    /// The value stored under `key`.
    pub fn get(&self, key: &K) -> (found: Option<&V>)
        requires
            self.wf(),
        ensures
            match found {
                Some(v) => self@.contains_key(key@) && self@[key@] == *v,
                None => !self@.contains_key(key@),
            },
    {
        match self.position(key) {
            Some(i) => {
                proof {
                    self.lemma_entry(i as int);
                }
                Some(&self.entries[i].1)
            },
            None => None,
        }
    }

    /// Stores `value` under `key`, in place of what was stored there.
    pub fn insert(&mut self, key: K, value: V)
        requires
            old(self).wf(),
        ensures
            final(self).wf(),
            final(self)@ == old(self)@.insert(key@, value),
            old(self)@.contains_key(key@) ==> final(self).key_order() == old(self).key_order(),
            !old(self)@.contains_key(key@) ==> final(self).key_order() == old(self).key_order().push(key@),
    {
        let ghost before = *self;
        match self.position(&key) {
            Some(i) => {
                let (k, _) = self.entries.remove(i);
                self.entries.insert(i, (k, value));
                proof {
                    assert(self.entries@.len() == before.entries@.len());
                    assert forall|j: int| 0 <= j < self.entries@.len() implies (
                    #[trigger] self.entries@[j]).0@ == before.entries@[j].0@ by {}
                    assert(self.wf());
                    assert(self.key_order() =~= before.key_order());
                    before.lemma_entry(i as int);
                    assert forall|q: K::V| #[trigger] self.has(q) <==> before.has(q) by {
                        if self.has(q) {
                            let j = self.slot(q);
                            assert(before.entries@[j].0@ == q);
                        }
                        if before.has(q) {
                            let j = before.slot(q);
                            assert(self.entries@[j].0@ == q);
                        }
                    }
                    assert forall|q: K::V| self.has(q) implies #[trigger] self@[q]
                        == before@.insert(key@, value)[q] by {
                        let j = self.slot(q);
                        self.lemma_entry(j);
                        before.lemma_entry(j);
                    }
                    assert(self@ =~= before@.insert(key@, value));
                }
            },
            None => {
                let ghost key_view = key@;
                self.entries.push((key, value));
                proof {
                    let n = before.entries@.len() as int;
                    assert forall|j: int| 0 <= j < n implies (#[trigger] self.entries@[j])
                        == before.entries@[j] by {}
                    assert(self.wf()) by {
                        assert forall|i: int, j: int| 0 <= i < j < self.entries@.len() implies (
                        #[trigger] self.entries@[i]).0@ != (#[trigger] self.entries@[j]).0@ by {
                            if j == n {
                                assert(before.entries@[i].0@ != key_view);
                            } else {
                                assert(before.entries@[i].0@ != before.entries@[j].0@);
                            }
                        }
                    }
                    assert(self.key_order() =~= before.key_order().push(key_view));
                    assert forall|q: K::V| #[trigger] self.has(q) <==> (before.has(q) || q
                        == key_view) by {
                        if self.has(q) {
                            let j = self.slot(q);
                            if j < n {
                                assert(before.entries@[j].0@ == q);
                            }
                        }
                        if before.has(q) {
                            let j = before.slot(q);
                            assert(self.entries@[j].0@ == q);
                        }
                        if q == key_view {
                            assert(self.entries@[n].0@ == q);
                        }
                    }
                    assert forall|q: K::V| self.has(q) implies #[trigger] self@[q]
                        == before@.insert(key_view, value)[q] by {
                        let j = self.slot(q);
                        self.lemma_entry(j);
                        if j < n {
                            before.lemma_entry(j);
                        }
                    }
                    assert(self@ =~= before@.insert(key_view, value));
                }
            },
        }
    }

    /// Takes `key` and its value out of the table.
    pub fn remove(&mut self, key: &K) -> (taken: Option<V>)
        requires
            old(self).wf(),
        ensures
            final(self).wf(),
            final(self)@ == old(self)@.remove(key@),
            match taken {
                Some(v) => old(self)@.contains_key(key@) && old(self)@[key@] == v,
                None => !old(self)@.contains_key(key@),
            },
    {
        let ghost before = *self;
        match self.position(key) {
            Some(i) => {
                let (_, value) = self.entries.remove(i);
                proof {
                    let n = self.entries@.len() as int;
                    before.lemma_entry(i as int);
                    assert forall|j: int| 0 <= j < n implies #[trigger] self.entries@[j] == (if j
                        < i {
                        before.entries@[j]
                    } else {
                        before.entries@[j + 1]
                    }) by {}
                    assert(self.wf()) by {
                        assert forall|a: int, b: int| 0 <= a < b < n implies (
                        #[trigger] self.entries@[a]).0@ != (#[trigger] self.entries@[b]).0@ by {
                            let a0 = if a < i { a } else { a + 1 };
                            let b0 = if b < i { b } else { b + 1 };
                            assert(before.entries@[a0].0@ != before.entries@[b0].0@);
                        }
                    }
                    assert forall|q: K::V| #[trigger] self.has(q) <==> (before.has(q) && q
                        != key@) by {
                        if self.has(q) {
                            let j = self.slot(q);
                            let j0 = if j < i { j } else { j + 1 };
                            assert(before.entries@[j0].0@ == q);
                            if j0 < i {
                                assert(before.entries@[j0].0@ != before.entries@[i as int].0@);
                            } else {
                                assert(before.entries@[i as int].0@ != before.entries@[j0].0@);
                            }
                        }
                        if before.has(q) && q != key@ {
                            let j0 = before.slot(q);
                            let j = if j0 < i { j0 } else { j0 - 1 };
                            assert(self.entries@[j].0@ == q);
                        }
                    }
                    assert forall|q: K::V| self.has(q) implies #[trigger] self@[q]
                        == before@.remove(key@)[q] by {
                        let j = self.slot(q);
                        let j0 = if j < i { j } else { j + 1 };
                        self.lemma_entry(j);
                        before.lemma_entry(j0);
                    }
                    assert(self@ =~= before@.remove(key@));
                }
                Some(value)
            },
            None => {
                assert(self@ =~= before@.remove(key@));
                None
            },
        }
    }

    /// The key at position `i` of the insertion order.
    pub fn key_at(&self, i: usize) -> (k: &K)
        requires
            self.wf(),
            i < self.key_order().len(),
        ensures
            k@ == self.key_order()[i as int],
    {
        &self.entries[i].0
    }

    /// Copies of the keys, in insertion order.
    pub fn keys(&self) -> (ks: Vec<K>)
        requires
            self.wf(),
        ensures
            ks@.len() == self.key_order().len(),
            forall|i: int| 0 <= i < ks@.len() ==> (#[trigger] ks@[i])@ == self.key_order()[i],
    {
        let mut ks: Vec<K> = Vec::new();
        let mut i: usize = 0;
        while i < self.entries.len()
            invariant
                i <= self.entries@.len(),
                ks@.len() == i,
                forall|j: int| 0 <= j < i ==> (#[trigger] ks@[j])@ == self.entries@[j].0@,
            decreases self.entries@.len() - i,
        {
            ks.push(self.entries[i].0.duplicate());
            i += 1;
        }
        ks
    }
}

} // verus!
