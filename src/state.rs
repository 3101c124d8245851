//! Per-step, per-key operator state, rebuilt from the state log as of the
//! resume epoch and claimed by each stateful step as the dataflow is built.
use vstd::prelude::*;

use crate::change::{apply_change, KChange, KReader, KWriter};
use crate::progress::Epoch;
use crate::store::{KvStore, StoreKey};

verus! {

/// A caller-assigned, stable identifier of a dataflow step.
#[derive(Debug, Clone, PartialEq, Eq)]
pub struct StepId(pub String);

impl View for StepId {
    type V = Seq<char>;

    open spec fn view(&self) -> Seq<char> {
        self.0@
    }
}

impl StepId {
    /// A copy of this step id.
    pub fn copy(&self) -> (r: StepId)
        ensures
            r@ == self@,
    {
        StepId(self.0.clone())
    }
}

/// The key of one piece of state: the step that owns it and the data key.
#[derive(Debug, Clone, PartialEq, Eq)]
pub struct StateKey(pub StepId, pub String);

impl View for StateKey {
    type V = (Seq<char>, Seq<char>);

    open spec fn view(&self) -> (Seq<char>, Seq<char>) {
        (self.0@, self.1@)
    }
}

impl StoreKey for StateKey {
    fn same_key(&self, other: &Self) -> (r: bool) {
        self.0.0 == other.0.0 && self.1 == other.1
    }
}

/// The serialized state of one key.
#[derive(Debug, Clone, PartialEq, Eq)]
pub struct StateBytes(pub Vec<u8>);

impl View for StateBytes {
    type V = Seq<u8>;

    open spec fn view(&self) -> Seq<u8> {
        self.0@
    }
}

/// The key of a state log record: the epoch it was written in, and the
/// state key.
#[derive(Debug, Clone, PartialEq, Eq)]
pub struct SnapshotKey(pub Epoch, pub StateKey);

/// The serialized state of every step and key, claimed step by step.
pub type FlowStateBytes = KvStore<StateKey, StateBytes>;

/// The model of the state held: serialized state by (step, key).
pub type StateModel = Map<(Seq<char>, Seq<char>), Seq<u8>>;

/// Counts of what state loading recovered.
#[derive(Debug, Clone, Copy, PartialEq, Eq, Structural)]
pub struct StoreSummary {
    /// The number of keys recovered, over all steps.
    pub keys: usize,
}

/// The state as of epoch `resume` after the records of `s`, in order:
/// records written after `resume` are left out.
pub open spec fn state_as_of(s: Seq<KChange<SnapshotKey, StateBytes>>, resume: Epoch) -> StateModel
    decreases s.len(),
{
    if s.len() == 0 {
        Map::empty()
    } else {
        let prev = state_as_of(s.drop_last(), resume);
        let c = s.last();
        if c.0.0 <= resume {
            apply_change(prev, KChange(c.0.1, c.1))
        } else {
            prev
        }
    }
}

/// Records written after the resume epoch leave the resumed state as it
/// was at that epoch: a log that went on past `resume` loads the same state
/// as the log as it stood then.
pub proof fn later_records_do_not_leak(
    s: Seq<KChange<SnapshotKey, StateBytes>>,
    later: Seq<KChange<SnapshotKey, StateBytes>>,
    resume: Epoch,
)
    requires
        forall|i: int| 0 <= i < later.len() ==> #[trigger] later[i].0.0 > resume,
    ensures
        state_as_of(s + later, resume) == state_as_of(s, resume),
    decreases later.len(),
{
    if later.len() == 0 {
        assert(s + later =~= s);
    } else {
        let shorter = later.drop_last();
        assert forall|i: int| 0 <= i < shorter.len() implies #[trigger] shorter[i].0.0 > resume by {
            assert(shorter[i] == later[i]);
        }
        later_records_do_not_leak(s, shorter, resume);
        assert((s + later).drop_last() =~= s + shorter);
        assert((s + later).last() == later[later.len() - 1]);
    }
}

/// The state of step `step` within `m`.
pub open spec fn step_part(m: StateModel, step: Seq<char>) -> StateModel {
    m.restrict(Set::new(|k: (Seq<char>, Seq<char>)| k.0 == step))
}

/// The state of every step but `step` within `m`.
pub open spec fn other_steps(m: StateModel, step: Seq<char>) -> StateModel {
    m.restrict(Set::new(|k: (Seq<char>, Seq<char>)| k.0 != step))
}

/// Rebuilds the state as of `resume_epoch` by reading a state log to
/// exhaustion. Records written after the resume epoch are discarded, so
/// no state of a partial epoch leaks forward.
pub fn load_state<R: KReader<SnapshotKey, StateBytes>>(reader: &mut R, resume_epoch: Epoch) -> (r: (
    FlowStateBytes,
    StoreSummary,
))
    ensures
        r.0.wf(),
        r.0@ == state_as_of(old(reader).pending(), resume_epoch),
        r.1.keys == r.0@.dom().len(),
        final(reader).pending().len() == 0,
{
    let ghost all = reader.pending();
    let ghost mut done: int = 0;
    let mut store: FlowStateBytes = KvStore::new();
    loop
        invariant
            store.wf(),
            0 <= done <= all.len(),
            reader.pending() == all.skip(done),
            store@ == state_as_of(all.take(done), resume_epoch),
        ensures
            store.wf(),
            reader.pending().len() == 0,
            store@ == state_as_of(all, resume_epoch),
        decreases reader.pending().len(),
    {
        match reader.read() {
            Some(record) => {
                assert(all.take(done + 1).drop_last() =~= all.take(done));
                let KChange(SnapshotKey(epoch, key), change) = record;
                if epoch <= resume_epoch {
                    store.write(KChange(key, change));
                }
                proof {
                    done = done + 1;
                }
                assert(reader.pending() =~= all.skip(done));
            },
            None => {
                assert(all.take(done) =~= all);
                break ;
            },
        }
    }
    let keys = store.len();
    (store, StoreSummary { keys })
}

/// The number of keys of step `step_id` in the flow's state.
pub fn step_key_count(state: &FlowStateBytes, step_id: &StepId) -> (r: usize)
    requires
        state.wf(),
    ensures
        step_part(state@, step_id@).dom().finite(),
        r == step_part(state@, step_id@).dom().len(),
{
    let ghost sid = step_id@;
    let n = state.len();
    let mut count: usize = 0;
    let mut i: usize = 0;
    let ghost mut seen: Set<(Seq<char>, Seq<char>)> = Set::empty();
    while i < n
        invariant
            state.wf(),
            sid == step_id@,
            n == state.size(),
            i <= n,
            count <= i,
            seen.finite(),
            count == seen.len(),
            forall|k: (Seq<char>, Seq<char>)| #[trigger]
                seen.contains(k) <==> exists|j: int| 0 <= j < i && #[trigger] state.key_at(j) == k
                    && k.0 == sid,
        decreases n - i,
    {
        let (k, _) = state.entry(i);
        let ghost prev = seen;
        let ghost ki = state.key_at(i as int);
        let matches = k.0.0 == step_id.0;
        if matches {
            proof {
                assert(!prev.contains(ki)) by {
                    if prev.contains(ki) {
                        let j = choose|j: int|
                            0 <= j < i && #[trigger] state.key_at(j) == ki && ki.0 == sid;
                        state.lemma_keys_distinct(j, i as int);
                    }
                }
                seen = prev.insert(ki);
            }
            count = count + 1;
        }
        proof {
            assert(matches == (ki.0 == sid));
            assert forall|key: (Seq<char>, Seq<char>)| #[trigger]
                seen.contains(key) <==> exists|j: int|
                    0 <= j < i + 1 && #[trigger] state.key_at(j) == key && key.0 == sid by {
                if key == ki && ki.0 == sid {
                    assert(state.key_at(i as int) == key);
                }
                if exists|j: int| 0 <= j < i + 1 && #[trigger] state.key_at(j) == key && key.0 == sid {
                    let j = choose|j: int|
                        0 <= j < i + 1 && #[trigger] state.key_at(j) == key && key.0 == sid;
                    if j < i {
                        assert(prev.contains(key));
                    }
                }
            }
        }
        i = i + 1;
    }
    proof {
        assert forall|k: (Seq<char>, Seq<char>)|
            #[trigger] step_part(state@, sid).dom().contains(k) <==> seen.contains(k) by {
            if step_part(state@, sid).dom().contains(k) {
                state.lemma_index_of(k);
                let j = choose|j: int| 0 <= j < state.size() && state.key_at(j) == k;
                assert(state.key_at(j) == k);
            }
            if seen.contains(k) {
                let j = choose|j: int| 0 <= j < n && #[trigger] state.key_at(j) == k && k.0 == sid;
                state.lemma_key_at(j);
            }
        }
        assert(step_part(state@, sid).dom() =~= seen);
    }
    count
}

/// Takes the state of step `step_id` out of the flow's state. What is
/// left after every step has claimed its own belongs to no step.
pub fn claim_step(state: &mut FlowStateBytes, step_id: &StepId) -> (r: FlowStateBytes)
    requires
        old(state).wf(),
    ensures
        final(state).wf(),
        r.wf(),
        r@ == step_part(old(state)@, step_id@),
        final(state)@ == other_steps(old(state)@, step_id@),
{
    let ghost sid = step_id@;
    let pred = |k: &StateKey| -> (b: bool)
        ensures
            b == (k@.0 == step_id@),
        { k.0.0 == step_id.0 };
    let r = state.split_off_where(
        &pred,
        Ghost(|k: (Seq<char>, Seq<char>)| k.0 == sid),
    );
    assert(r@ =~= step_part(old(state)@, sid));
    assert(state@ =~= other_steps(old(state)@, sid));
    r
}

} // verus!
