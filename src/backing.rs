//! The standard library's maps as stores of keyed changes, for integer
//! keys: they coalesce changes exactly as the vector-backed store does.
use vstd::prelude::*;

use std::collections::{BTreeMap, HashMap};

use crate::change::{apply_change, apply_changes, lemma_apply_changes_step, Change, KChange, KWriter};

verus! {

broadcast use {
    vstd::std_specs::hash::group_hash_axioms,
    vstd::std_specs::btree::group_btree_axioms,
    vstd::laws_cmp::group_laws_cmp,
};

/// The view of each value of `m`.
pub open spec fn value_views<V: View>(m: Map<u64, V>) -> Map<u64, V::V> {
    Map::new(|k: u64| m.contains_key(k), |k: u64| m[k]@)
}

impl<V: View> KWriter<u64, V> for HashMap<u64, V> {
    open spec fn contents(&self) -> Map<u64, V::V> {
        value_views(self@)
    }

    open spec fn well_formed(&self) -> bool {
        true
    }

    fn write(&mut self, kchange: KChange<u64, V>) {
        let KChange(key, change) = kchange;
        match change {
            Change::Upsert(value) => {
                let ghost vv = value@;
                self.insert(key, value);
                assert(value_views(self@) =~= value_views(old(self)@).insert(key, vv));
            },
            Change::Discard => {
                self.remove(&key);
                assert(value_views(self@) =~= value_views(old(self)@).remove(key));
            },
        }
    }

    fn write_many(&mut self, batch: Vec<KChange<u64, V>>) {
        let ghost start = value_views(self@);
        let ghost all = batch@;
        let mut rest = batch;
        let total: usize = rest.len();
        let mut done: usize = 0;
        while rest.len() > 0
            invariant
                all.len() == total,
                done <= total,
                rest@ == all.skip(done as int),
                value_views(self@) == apply_changes(start, all.take(done as int)),
            decreases rest.len(),
        {
            let next = rest.remove(0);
            proof {
                lemma_apply_changes_step(start, all, done as int);
            }
            self.write(next);
            done = done + 1;
            assert(rest@ =~= all.skip(done as int));
        }
        assert(all.take(done as int) =~= all);
    }
}

impl<V: View> KWriter<u64, V> for BTreeMap<u64, V> {
    open spec fn contents(&self) -> Map<u64, V::V> {
        value_views(self@)
    }

    open spec fn well_formed(&self) -> bool {
        true
    }

    fn write(&mut self, kchange: KChange<u64, V>) {
        let KChange(key, change) = kchange;
        match change {
            Change::Upsert(value) => {
                let ghost vv = value@;
                self.insert(key, value);
                assert(value_views(self@) =~= value_views(old(self)@).insert(key, vv));
            },
            Change::Discard => {
                self.remove(&key);
                assert(value_views(self@) =~= value_views(old(self)@).remove(key));
            },
        }
    }

    fn write_many(&mut self, batch: Vec<KChange<u64, V>>) {
        let ghost start = value_views(self@);
        let ghost all = batch@;
        let mut rest = batch;
        let total: usize = rest.len();
        let mut done: usize = 0;
        while rest.len() > 0
            invariant
                all.len() == total,
                done <= total,
                rest@ == all.skip(done as int),
                value_views(self@) == apply_changes(start, all.take(done as int)),
            decreases rest.len(),
        {
            let next = rest.remove(0);
            proof {
                lemma_apply_changes_step(start, all, done as int);
            }
            self.write(next);
            done = done + 1;
            assert(rest@ =~= all.skip(done as int));
        }
        assert(all.take(done as int) =~= all);
    }
}

} // verus!
