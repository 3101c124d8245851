//! The per-key logics of the stateful steps, over caller-supplied
//! callbacks: reduce with a completeness check, reduce within an epoch,
//! and stateful map.
use vstd::prelude::*;

use crate::stateful::StateValue;
use crate::store::KvStore;

verus! {

/// The aggregator after `value` arrives: the value itself on a key's first
/// item, else what the reducer answers for the old aggregator and `value`.
pub fn reduce_epoch<T, R: Fn(T, T) -> T>(reducer: &R, aggregator: &mut Option<T>, value: T)
    requires
        forall|a: T, b: T| #[trigger] reducer.requires((a, b)),
    ensures
        (*final(aggregator)) is Some,
        (*old(aggregator)) is None ==> (*final(aggregator))->Some_0 == value,
        (*old(aggregator)) is Some ==> reducer.ensures(
            ((*old(aggregator))->Some_0, value),
            (*final(aggregator))->Some_0,
        ),
{
    let updated = match aggregator.take() {
        Some(a) => reducer(a, value),
        None => value,
    };
    *aggregator = Some(updated);
}

/// Reduces `value` into the key's aggregator, then asks `is_complete`
/// whether the aggregate is complete. A complete aggregate is emitted with
/// its key and its state is to be discarded: the first result says so.
pub fn reduce<T: StateValue, R: Fn(T, T) -> T, C: Fn(&T) -> bool>(
    reducer: &R,
    is_complete: &C,
    aggregator: &mut Option<T>,
    key: &String,
    value: T,
) -> (r: (bool, Option<(String, T)>))
    requires
        forall|a: T, b: T| #[trigger] reducer.requires((a, b)),
        forall|a: &T| #[trigger] is_complete.requires((a,)),
    ensures
        (*final(aggregator)) is Some,
        (*old(aggregator)) is None ==> (*final(aggregator))->Some_0 == value,
        (*old(aggregator)) is Some ==> reducer.ensures(
            ((*old(aggregator))->Some_0, value),
            (*final(aggregator))->Some_0,
        ),
        is_complete.ensures((&(*final(aggregator))->Some_0,), r.0),
        r.0 ==> r.1 is Some,
        r.0 ==> r.1->Some_0.0@ == key@,
        r.0 ==> r.1->Some_0.1@ == (*final(aggregator))->Some_0@,
        !r.0 ==> r.1 is None,
{
    reduce_epoch(reducer, aggregator, value);
    let updated = aggregator.as_ref().unwrap();
    let complete = is_complete(updated);
    if complete {
        (true, Some((key.clone(), updated.duplicate())))
    } else {
        (false, None)
    }
}

/// One step of a reduction within an epoch: `after` is `before` once
/// `item` arrived. A new key takes the item's value; a known key takes what
/// the reducer answered for its aggregator and the item's value.
pub open spec fn reduce_step<T: View, R: Fn(T, T) -> T>(
    reducer: &R,
    before: Map<Seq<char>, T::V>,
    item: (String, T),
    after: Map<Seq<char>, T::V>,
) -> bool {
    if before.contains_key(item.0@) {
        exists|a: T, c: T|
            a@ == before[item.0@] && #[trigger] reducer.ensures((a, item.1), c) && after
                == before.insert(item.0@, c@)
    } else {
        after == before.insert(item.0@, item.1@)
    }
}

/// `ms` is the sequence of aggregator maps a reduction of `items` goes
/// through, one step per item.
pub open spec fn reduce_trace<T: View, R: Fn(T, T) -> T>(
    reducer: &R,
    items: Seq<(String, T)>,
    ms: Seq<Map<Seq<char>, T::V>>,
) -> bool {
    &&& ms.len() == items.len() + 1
    &&& forall|i: int|
        0 <= i < items.len() ==> #[trigger] reduce_step(reducer, ms[i], items[i], ms[i + 1])
}

/// Reduces every `(key, value)` of one epoch into the aggregators, in
/// order: a key met for the first time takes its value, a known one what
/// the reducer answers.
pub fn reduce_epoch_local<T: View, R: Fn(T, T) -> T>(
    reducer: &R,
    aggregators: &mut KvStore<String, T>,
    items: Vec<(String, T)>,
)
    requires
        old(aggregators).wf(),
        forall|a: T, b: T| #[trigger] reducer.requires((a, b)),
    ensures
        final(aggregators).wf(),
        forall|k: Seq<char>| #[trigger]
            final(aggregators)@.contains_key(k) <==> old(aggregators)@.contains_key(k) || exists|
                i: int,
            | 0 <= i < items@.len() && #[trigger] items@[i].0@ == k,
        forall|k: Seq<char>|
            #![trigger final(aggregators)@[k]]
            old(aggregators)@.contains_key(k) && !(exists|i: int|
                0 <= i < items@.len() && #[trigger] items@[i].0@ == k) ==> final(aggregators)@[k]
                == old(aggregators)@[k],
        exists|ms: Seq<Map<Seq<char>, T::V>>|
            {
                &&& #[trigger] reduce_trace(reducer, items@, ms)
                &&& ms[0] == old(aggregators)@
                &&& ms.last() == final(aggregators)@
            },
{
    let ghost all = items@;
    let ghost start = aggregators@;
    let mut rest = items;
    let total: usize = rest.len();
    let mut done: usize = 0;
    let ghost mut ms: Seq<Map<Seq<char>, T::V>> = seq![start];
    while rest.len() > 0
        invariant
            aggregators.wf(),
            ms.len() == done + 1,
            ms[0] == start,
            ms.last() == aggregators@,
            forall|i: int| 0 <= i < done ==> #[trigger] reduce_step(reducer, ms[i], all[i], ms[i + 1]),
            all.len() == total,
            done <= total,
            rest@ == all.skip(done as int),
            forall|a: T, b: T| #[trigger] reducer.requires((a, b)),
            forall|k: Seq<char>| #[trigger]
                aggregators@.contains_key(k) <==> start.contains_key(k) || exists|i: int|
                    0 <= i < done && #[trigger] all[i].0@ == k,
            forall|k: Seq<char>|
                #![trigger aggregators@[k]]
                start.contains_key(k) && !(exists|i: int| 0 <= i < done && #[trigger] all[i].0@ == k)
                    ==> aggregators@[k] == start[k],
        decreases rest.len(),
    {
        let ghost before = aggregators@;
        let ghost item = all[done as int];
        let (key, value) = rest.remove(0);
        assert(key@ == all[done as int].0@);
        assert(value == item.1);
        let ghost kv = key@;
        let updated = match aggregators.remove(&key) {
            Some(a) => {
                let ghost ga = a;
                let c = reducer(a, value);
                assert(ga@ == before[kv] && reducer.ensures((ga, item.1), c));
                assert(before.remove(kv).insert(kv, c@) =~= before.insert(kv, c@));
                c
            },
            None => {
                assert(before.remove(kv) =~= before);
                value
            },
        };
        aggregators.insert(key, updated);
        proof {
            assert(reduce_step(reducer, before, item, aggregators@));
            ms = ms.push(aggregators@);
        }
        done = done + 1;
        assert(rest@ =~= all.skip(done as int));
        assert forall|k: Seq<char>| #[trigger]
            aggregators@.contains_key(k) <==> start.contains_key(k) || exists|i: int|
                0 <= i < done && #[trigger] all[i].0@ == k by {
            if k == kv {
                assert(all[done - 1].0@ == k);
            }
            if exists|i: int| 0 <= i < done && #[trigger] all[i].0@ == k {
                let i = choose|i: int| 0 <= i < done && #[trigger] all[i].0@ == k;
                if i < done - 1 {
                    assert(exists|j: int| 0 <= j < done - 1 && #[trigger] all[j].0@ == k);
                }
            }
        }
        assert forall|k: Seq<char>|
            #![trigger aggregators@[k]]
            start.contains_key(k) && !(exists|i: int| 0 <= i < done && #[trigger] all[i].0@ == k)
                implies aggregators@[k] == start[k] by {
            assert(all[done - 1].0@ == kv);
            if exists|i: int| 0 <= i < done - 1 && #[trigger] all[i].0@ == k {
                let i = choose|i: int| 0 <= i < done - 1 && #[trigger] all[i].0@ == k;
                assert(0 <= i < done && all[i].0@ == k);
            }
        }
    }
    assert(all.take(done as int) =~= all);
    assert(reduce_trace(reducer, all, ms));
}

/// Runs `mapper` on the key's state and the value; it answers with the
/// new state and a value to emit. No new state means the key's state is
/// to be discarded: the first result says so. The emitted value goes out
/// with its key.
pub fn stateful_map<S, V, O, M: Fn(S, V) -> (Option<S>, O)>(
    mapper: &M,
    state: S,
    key: &String,
    value: V,
) -> (r: (bool, Option<S>, (String, O)))
    requires
        mapper.requires((state, value)),
    ensures
        mapper.ensures((state, value), (r.1, r.2.1)),
        r.0 == r.1 is None,
        r.2.0@ == key@,
{
    let (updated, emit) = mapper(state, value);
    let discard = updated.is_none();
    (discard, updated, (key.clone(), emit))
}

} // verus!
