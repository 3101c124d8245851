//! An in-memory key-value store that coalesces keyed changes: only the
//! latest value of each key is kept.
use vstd::prelude::*;

use crate::change::{apply_change, apply_changes, lemma_apply_changes_step, Change, KChange, KWriter};

verus! {

/// A key that can be compared with another by its view.
pub trait StoreKey: View + Sized {
    /// Whether the two keys are the same key.
    fn same_key(&self, other: &Self) -> (r: bool)
        ensures
            r == (self@ == other@),
    ;
}

impl StoreKey for u64 {
    fn same_key(&self, other: &Self) -> (r: bool) {
        *self == *other
    }
}

/// A store backed by a vector of entries, one per key.
pub struct KvStore<K: View, V: View> {
    entries: Vec<(K, V)>,
    model: Ghost<Map<K::V, V::V>>,
}

impl<K: View, V: View> View for KvStore<K, V> {
    type V = Map<K::V, V::V>;

    closed spec fn view(&self) -> Map<K::V, V::V> {
        self.model@
    }
}

impl<K: StoreKey, V: View> KvStore<K, V> {
    /// The store's invariant: one entry per key, and the entries are
    /// exactly the store's view.
    pub closed spec fn wf(&self) -> bool {
        &&& forall|i: int, j: int|
            0 <= i < j < self.entries@.len() ==> #[trigger] self.entries@[i].0@
                != #[trigger] self.entries@[j].0@
        &&& forall|i: int|
            0 <= i < self.entries@.len() ==> {
                &&& self.model@.contains_key(#[trigger] self.entries@[i].0@)
                &&& self.model@[self.entries@[i].0@] == self.entries@[i].1@
            }
        &&& forall|k: K::V| #[trigger]
            self.model@.contains_key(k) ==> exists|i: int|
                0 <= i < self.entries@.len() && #[trigger] self.entries@[i].0@ == k
    }

    /// The number of entries.
    pub closed spec fn size(&self) -> nat {
        self.entries@.len()
    }

    /// The key of the entry at position `i`.
    pub closed spec fn key_at(&self, i: int) -> K::V {
        self.entries@[i].0@
    }

    /// Every key of the store is the key of some entry.
    pub proof fn lemma_index_of(&self, k: K::V)
        requires
            self.wf(),
            self@.contains_key(k),
        ensures
            exists|i: int| 0 <= i < self.size() && self.key_at(i) == k,
    {
        let i = choose|i: int| 0 <= i < self.entries@.len() && #[trigger] self.entries@[i].0@ == k;
        assert(self.key_at(i) == k);
    }

    /// The key of every entry is a key of the store.
    pub proof fn lemma_key_at(&self, i: int)
        requires
            self.wf(),
            0 <= i < self.size(),
        ensures
            self@.contains_key(self.key_at(i)),
    {
    }

    /// No two entries have the same key.
    pub proof fn lemma_keys_distinct(&self, i: int, j: int)
        requires
            self.wf(),
            0 <= i < self.size(),
            0 <= j < self.size(),
            i != j,
        ensures
            self.key_at(i) != self.key_at(j),
    {
        if i < j {
            assert(self.entries@[i].0@ != self.entries@[j].0@);
        } else {
            assert(self.entries@[j].0@ != self.entries@[i].0@);
        }
    }

    /// The store holds one entry per key, so as many entries as keys.
    pub proof fn lemma_size_is_key_count(&self)
        requires
            self.wf(),
        ensures
            self@.dom().finite(),
            self@.dom().len() == self.size(),
    {
        let keys = self.entries@.map_values(|e: (K, V)| e.0@);
        assert(keys.no_duplicates()) by {
            assert forall|i: int, j: int|
                0 <= i < keys.len() && 0 <= j < keys.len() && i != j implies keys[i] != keys[j] by {
                if i < j {
                    assert(self.entries@[i].0@ != self.entries@[j].0@);
                } else {
                    assert(self.entries@[j].0@ != self.entries@[i].0@);
                }
            }
        }
        keys.unique_seq_to_set();
        assert forall|k: K::V| #[trigger] self@.dom().contains(k) implies keys.to_set().contains(k) by {
            let i = choose|i: int| 0 <= i < self.entries@.len() && #[trigger] self.entries@[i].0@ == k;
            assert(keys[i] == k);
        }
        assert forall|k: K::V| #[trigger] keys.to_set().contains(k) implies self@.dom().contains(k) by {
            let i = choose|i: int| 0 <= i < keys.len() && keys[i] == k;
            assert(self.entries@[i].0@ == k);
        }
        assert(keys.to_set() =~= self@.dom());
    }

    /// An empty store.
    pub fn new() -> (r: Self)
        ensures
            r.wf(),
            r@ == Map::<K::V, V::V>::empty(),
            r.size() == 0,
    {
        KvStore { entries: Vec::new(), model: Ghost(Map::empty()) }
    }

    /// The number of keys held.
    pub fn len(&self) -> (r: usize)
        requires
            self.wf(),
        ensures
            r == self.size(),
            r == self@.dom().len(),
            self@.dom().finite(),
    {
        proof {
            self.lemma_size_is_key_count();
        }
        self.entries.len()
    }

    /// Whether the store holds no key.
    pub fn is_empty(&self) -> (r: bool)
        requires
            self.wf(),
        ensures
            r == (self@ == Map::<K::V, V::V>::empty()),
    {
        if self.entries.len() == 0 {
            assert forall|k: K::V| !#[trigger] self@.contains_key(k) by {
                if self@.contains_key(k) {
                    self.lemma_index_of(k);
                }
            }
            assert(self@ =~= Map::<K::V, V::V>::empty());
            true
        } else {
            proof {
                self.lemma_key_at(0);
            }
            assert(!Map::<K::V, V::V>::empty().contains_key(self.key_at(0)));
            false
        }
    }

    /// The entry at position `i`.
    pub fn entry(&self, i: usize) -> (r: (&K, &V))
        requires
            self.wf(),
            i < self.size(),
        ensures
            r.0@ == self.key_at(i as int),
            self@.contains_key(r.0@),
            self@[r.0@] == r.1@,
    {
        let e = &self.entries[i];
        (&e.0, &e.1)
    }

    /// The position of the entry for `k`, if the store holds `k`.
    fn find(&self, k: &K) -> (r: Option<usize>)
        requires
            self.wf(),
        ensures
            r is None ==> !self@.contains_key(k@),
            r is Some ==> r->Some_0 < self.entries@.len() && self.entries@[r->Some_0 as int].0@
                == k@,
    {
        let mut i: usize = 0;
        while i < self.entries.len()
            invariant
                i <= self.entries@.len(),
                forall|j: int| 0 <= j < i ==> self.entries@[j].0@ != k@,
            decreases self.entries@.len() - i,
        {
            if self.entries[i].0.same_key(k) {
                return Some(i);
            }
            i = i + 1;
        }
        None
    }

    /// Whether the store holds `k`.
    pub fn contains_key(&self, k: &K) -> (r: bool)
        requires
            self.wf(),
        ensures
            r == self@.contains_key(k@),
    {
        self.find(k).is_some()
    }

    /// The value held under `k`.
    pub fn get(&self, k: &K) -> (r: Option<&V>)
        requires
            self.wf(),
        ensures
            r is None <==> !self@.contains_key(k@),
            r is Some ==> r->Some_0@ == self@[k@],
    {
        match self.find(k) {
            Some(i) => Some(&self.entries[i].1),
            None => None,
        }
    }

    /// Inserts `v` under `k`, replacing any earlier value.
    pub fn insert(&mut self, k: K, v: V)
        requires
            old(self).wf(),
        ensures
            final(self).wf(),
            final(self)@ == old(self)@.insert(k@, v@),
    {
        let ghost kv = k@;
        let ghost vv = v@;
        let ghost before = self.entries@;
        match self.find(&k) {
            Some(i) => {
                self.entries.set(i, (k, v));
                self.model = Ghost(self.model@.insert(kv, vv));
                assert forall|key: K::V| #[trigger]
                    self.model@.contains_key(key) implies exists|j: int|
                        0 <= j < self.entries@.len() && #[trigger] self.entries@[j].0@ == key by {
                    if key != kv {
                        let j = choose|j: int| 0 <= j < before.len() && #[trigger] before[j].0@ == key;
                        assert(self.entries@[j].0@ == key);
                    } else {
                        assert(self.entries@[i as int].0@ == key);
                    }
                }
            },
            None => {
                self.entries.push((k, v));
                self.model = Ghost(self.model@.insert(kv, vv));
                assert forall|key: K::V| #[trigger]
                    self.model@.contains_key(key) implies exists|j: int|
                        0 <= j < self.entries@.len() && #[trigger] self.entries@[j].0@ == key by {
                    if key != kv {
                        let j = choose|j: int| 0 <= j < before.len() && #[trigger] before[j].0@ == key;
                        assert(self.entries@[j].0@ == key);
                    } else {
                        assert(self.entries@[before.len() as int].0@ == key);
                    }
                }
            },
        }
    }

    /// Removes `k` and returns the value it held.
    pub fn remove(&mut self, k: &K) -> (r: Option<V>)
        requires
            old(self).wf(),
        ensures
            final(self).wf(),
            final(self)@ == old(self)@.remove(k@),
            r is None <==> !old(self)@.contains_key(k@),
            r is Some ==> r->Some_0@ == old(self)@[k@],
    {
        let ghost before = self.entries@;
        match self.find(k) {
            Some(i) => {
                let (_, v) = self.entries.remove(i);
                self.model = Ghost(self.model@.remove(k@));
                assert forall|a: int, b: int|
                    0 <= a < b < self.entries@.len() implies #[trigger] self.entries@[a].0@
                        != #[trigger] self.entries@[b].0@ by {
                    let a0 = if a < i { a } else { a + 1 };
                    let b0 = if b < i { b } else { b + 1 };
                    assert(self.entries@[a] == before[a0]);
                    assert(self.entries@[b] == before[b0]);
                }
                assert forall|a: int| 0 <= a < self.entries@.len() implies {
                    &&& self.model@.contains_key(#[trigger] self.entries@[a].0@)
                    &&& self.model@[self.entries@[a].0@] == self.entries@[a].1@
                } by {
                    let a0 = if a < i { a } else { a + 1 };
                    assert(self.entries@[a] == before[a0]);
                    assert(before[a0].0@ != before[i as int].0@);
                }
                assert forall|key: K::V| #[trigger]
                    self.model@.contains_key(key) implies exists|j: int|
                        0 <= j < self.entries@.len() && #[trigger] self.entries@[j].0@ == key by {
                    let j = choose|j: int| 0 <= j < before.len() && #[trigger] before[j].0@ == key;
                    assert(j != i);
                    if j < i {
                        assert(self.entries@[j].0@ == key);
                    } else {
                        assert(self.entries@[j - 1].0@ == key);
                    }
                }
                Some(v)
            },
            None => {
                assert(self.model@.remove(k@) =~= self.model@);
                None
            },
        }
    }
}

/// Some entry of `s` at position `from` or later has key `k`.
spec fn has_key_from<K: View, V>(s: Seq<(K, V)>, from: int, k: K::V) -> bool {
    exists|i: int| from <= i < s.len() && #[trigger] s[i].0@ == k
}

impl<K: StoreKey, V: View> KvStore<K, V> {
    /// Moves out every entry whose key satisfies `pred`, which decides as
    /// `p` does on the key's view; the others stay.
    pub(crate) fn split_off_where<F: Fn(&K) -> bool>(
        &mut self,
        pred: &F,
        Ghost(p): Ghost<spec_fn(K::V) -> bool>,
    ) -> (r: KvStore<K, V>)
        requires
            old(self).wf(),
            forall|k: &K| #[trigger] pred.requires((k,)),
            forall|k: &K, b: bool| pred.ensures((k,), b) ==> b == p(k@),
        ensures
            final(self).wf(),
            r.wf(),
            forall|k: K::V| #[trigger]
                r@.contains_key(k) <==> old(self)@.contains_key(k) && p(k),
            forall|k: K::V| #[trigger] r@.contains_key(k) ==> r@[k] == old(self)@[k],
            forall|k: K::V| #[trigger]
                final(self)@.contains_key(k) <==> old(self)@.contains_key(k) && !p(k),
            forall|k: K::V| #[trigger] final(self)@.contains_key(k) ==> final(self)@[k] == old(
                self,
            )@[k],
    {
        let ghost s = self.entries@;
        let ghost m = self.model@;
        let mut taken: KvStore<K, V> = KvStore::new();
        let mut kept: KvStore<K, V> = KvStore::new();
        while self.entries.len() > 0
            invariant
                self.entries@.len() <= s.len(),
                self.entries@ == s.take(self.entries@.len() as int),
                forall|i: int, j: int|
                    0 <= i < j < s.len() ==> #[trigger] s[i].0@ != #[trigger] s[j].0@,
                forall|i: int|
                    0 <= i < s.len() ==> {
                        &&& m.contains_key(#[trigger] s[i].0@)
                        &&& m[s[i].0@] == s[i].1@
                    },
                forall|k: K::V| #[trigger]
                    m.contains_key(k) ==> exists|i: int| 0 <= i < s.len() && #[trigger] s[i].0@ == k,
                taken.wf(),
                kept.wf(),
                forall|k: &K| #[trigger] pred.requires((k,)),
                forall|k: &K, b: bool| pred.ensures((k,), b) ==> b == p(k@),
                forall|k: K::V| #[trigger]
                    taken@.contains_key(k) <==> p(k) && has_key_from(s, self.entries@.len() as int, k),
                forall|k: K::V| #[trigger] taken@.contains_key(k) ==> taken@[k] == m[k],
                forall|k: K::V| #[trigger]
                    kept@.contains_key(k) <==> !p(k) && has_key_from(s, self.entries@.len() as int, k),
                forall|k: K::V| #[trigger] kept@.contains_key(k) ==> kept@[k] == m[k],
            decreases self.entries@.len(),
        {
            let ghost n = self.entries@.len() as int;
            let (k, v) = self.entries.pop().unwrap();
            assert(self.entries@ =~= s.take(n - 1));
            assert(s[n - 1].0@ == k@);
            let ghost kv = k@;
            if pred(&k) {
                taken.insert(k, v);
            } else {
                kept.insert(k, v);
            }
            assert forall|key: K::V| #[trigger]
                has_key_from(s, n - 1, key) <==> (key == kv || has_key_from(s, n, key)) by {
                if has_key_from(s, n - 1, key) {
                    let i = choose|i: int| n - 1 <= i < s.len() && #[trigger] s[i].0@ == key;
                    if i != n - 1 {
                        assert(s[i].0@ == key);
                    }
                }
                if key == kv {
                    assert(s[n - 1].0@ == key);
                }
            }
            assert(s[n - 1].0@ == kv);
        }
        assert forall|k: K::V| #[trigger] m.contains_key(k) implies has_key_from(s, 0, k) by {
            let i = choose|i: int| 0 <= i < s.len() && #[trigger] s[i].0@ == k;
            assert(s[i].0@ == k);
        }
        *self = kept;
        taken
    }
}

impl<K: StoreKey, V: View> KWriter<K, V> for KvStore<K, V> {
    open spec fn contents(&self) -> Map<K::V, V::V> {
        self@
    }

    open spec fn well_formed(&self) -> bool {
        self.wf()
    }

    fn write(&mut self, kchange: KChange<K, V>) {
        let KChange(key, change) = kchange;
        match change {
            Change::Upsert(value) => {
                self.insert(key, value);
            },
            Change::Discard => {
                self.remove(&key);
            },
        }
    }

    fn write_many(&mut self, batch: Vec<KChange<K, V>>) {
        let ghost start = self@;
        let ghost all = batch@;
        let mut rest = batch;
        let total: usize = rest.len();
        let mut done: usize = 0;
        while rest.len() > 0
            invariant
                self.wf(),
                done <= all.len(),
                all.len() == total,
                rest@ == all.skip(done as int),
                self@ == apply_changes(start, all.take(done as int)),
            decreases rest.len(),
        {
            let next = rest.remove(0);
            proof {
                lemma_apply_changes_step(start, all, done as int);
            }
            self.write(next);
            done = done + 1;
            assert(rest@ =~= all.skip(done as int));
        }
        assert(all.take(done as int) =~= all);
    }
}

} // verus!
