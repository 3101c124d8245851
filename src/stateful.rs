//! The per-key stateful operator: each item's key is looked up, its state
//! is handed to the step's logic, and the change to that state is emitted
//! for checkpointing.
use vstd::prelude::*;

use crate::change::{Change, KChange, KWriter};
use crate::state::{StateBytes, StepId};
use crate::store::{KvStore, StoreKey};

verus! {

/// A value that can be copied with the same view.
pub trait StateValue: View + Sized {
    /// A copy of this value.
    fn duplicate(&self) -> (r: Self)
        ensures
            r@ == self@,
    ;
}

impl StateValue for u64 {
    fn duplicate(&self) -> (r: Self) {
        *self
    }
}

impl StateValue for StateBytes {
    fn duplicate(&self) -> (r: Self) {
        let mut out: Vec<u8> = Vec::new();
        let mut i: usize = 0;
        while i < self.0.len()
            invariant
                i <= self.0@.len(),
                out@ == self.0@.take(i as int),
            decreases self.0@.len() - i,
        {
            out.push(self.0[i]);
            i = i + 1;
            assert(out@ =~= self.0@.take(i as int));
        }
        assert(self.0@.take(i as int) =~= self.0@);
        StateBytes(out)
    }
}

impl StoreKey for String {
    fn same_key(&self, other: &Self) -> (r: bool) {
        *self == *other
    }
}

/// The state a key is awake with: its live state, else the state it
/// resumed with if it has not been touched since, else none.
pub open spec fn current_state<S>(
    live: Map<Seq<char>, S>,
    resume: Map<Seq<char>, S>,
    key: Seq<char>,
) -> Option<S> {
    if live.contains_key(key) {
        Some(live[key])
    } else if resume.contains_key(key) {
        Some(resume[key])
    } else {
        None
    }
}

/// The live states after the logic answered `change` for `key`.
pub open spec fn live_after<S>(live: Map<Seq<char>, S>, key: Seq<char>, change: Change<S>) -> Map<
    Seq<char>,
    S,
> {
    match change {
        Change::Upsert(s) => live.insert(key, s),
        Change::Discard => live.remove(key),
    }
}

/// The view of a change.
pub open spec fn change_view<S: View>(c: Change<S>) -> Change<S::V> {
    match c {
        Change::Upsert(s) => Change::Upsert(s@),
        Change::Discard => Change::Discard,
    }
}

/// The view of an optional value.
pub open spec fn option_view<S: View>(o: Option<S>) -> Option<S::V> {
    match o {
        Some(s) => Some(s@),
        None => None,
    }
}

/// Once the logic has discarded a key's state, the next item for that
/// key meets no state at all, as if the key had never been seen.
pub proof fn discard_forgets_state<S>(live: Map<Seq<char>, S>, resume: Map<Seq<char>, S>, key: Seq<char>)
    ensures
        current_state(live_after(live, key, Change::Discard), resume.remove(key), key) is None,
{
}

/// The runner of one stateful step: per-key state, resumed from the
/// step's recovered state on each key's first touch.
pub struct StatefulUnary<S: View> {
    step_id: StepId,
    live: KvStore<String, S>,
    resume: KvStore<String, S>,
}

impl<S: StateValue> StatefulUnary<S> {
    /// The live state of each key.
    pub closed spec fn live(&self) -> Map<Seq<char>, S::V> {
        self.live@
    }

    /// The recovered state of each key not yet touched.
    pub closed spec fn resume(&self) -> Map<Seq<char>, S::V> {
        self.resume@
    }

    /// The step this operator runs.
    pub closed spec fn step(&self) -> Seq<char> {
        self.step_id@
    }

    /// The step this operator runs.
    pub fn step_id(&self) -> (r: &StepId)
        ensures
            r@ == self.step(),
    {
        &self.step_id
    }

    /// The operator's invariant.
    pub closed spec fn wf(&self) -> bool {
        self.live.wf() && self.resume.wf()
    }

    /// An operator for step `step_id` that resumes each key from `resume`.
    pub fn new(step_id: StepId, resume: KvStore<String, S>) -> (r: Self)
        requires
            resume.wf(),
        ensures
            r.wf(),
            r.step() == step_id@,
            r.live() == Map::<Seq<char>, S::V>::empty(),
            r.resume() == resume@,
    {
        StatefulUnary { step_id, live: KvStore::new(), resume }
    }

    /// The state that `key` is awake with.
    pub fn state_of(&self, key: &String) -> (r: Option<&S>)
        requires
            self.wf(),
        ensures
            r is None <==> current_state(self.live(), self.resume(), key@) is None,
            r is Some ==> current_state(self.live(), self.resume(), key@) == Some(r->Some_0@),
    {
        match self.live.get(key) {
            Some(s) => Some(s),
            None => self.resume.get(key),
        }
    }

    /// Runs the logic on one item: the key's state (or none) and the value
    /// go to `logic`, which answers with outputs and the key's new state, or
    /// `Discard` to evict it. Returns the outputs and the change to record.
    pub fn on_item<V, O, F: Fn(Option<S>, V) -> (Vec<O>, Change<S>)>(
        &mut self,
        key: String,
        value: V,
        logic: &F,
    ) -> (r: (Vec<O>, KChange<String, S>))
        requires
            old(self).wf(),
            forall|s: Option<S>, v: V| #[trigger] logic.requires((s, v)),
        ensures
            final(self).wf(),
            final(self).step() == old(self).step(),
            r.1.0@ == key@,
            exists|prior: Option<S>|
                {
                    &&& option_view(prior) == current_state(
                        old(self).live(),
                        old(self).resume(),
                        key@,
                    )
                    &&& logic.ensures((prior, value), (r.0, r.1.1))
                },
            final(self).live() == live_after(old(self).live(), key@, change_view(r.1.1)),
            final(self).resume() == old(self).resume().remove(key@),
    {
        let from_live = self.live.remove(&key);
        let from_resume = self.resume.remove(&key);
        let prior = match from_live {
            Some(s) => Some(s),
            None => from_resume,
        };
        proof {
            if old(self).live().contains_key(key@) {
                assert(self.live() == old(self).live().remove(key@));
            }
        }
        let ghost p = prior;
        assert(option_view(p) == current_state(old(self).live(), old(self).resume(), key@));
        let (outputs, change) = logic(prior, value);
        assert(logic.ensures((p, value), (outputs, change)));
        match &change {
            Change::Upsert(s) => {
                let keep = s.duplicate();
                let k2 = key.clone();
                self.live.insert(k2, keep);
                assert(self.live() =~= old(self).live().insert(key@, s@));
            },
            Change::Discard => {
                assert(self.live() =~= old(self).live().remove(key@));
            },
        }
        (outputs, KChange(key, change))
    }
}

} // verus!
