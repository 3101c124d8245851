//! Worker identity, progress messages and the progress store that answers
//! where a restarted cluster resumes.
use vstd::prelude::*;

use crate::change::{apply_changes, drain, Change, KChange, KReader, KWriter};
use crate::store::{KvStore, StoreKey};

verus! {

/// A logical clock value stamped on every item; the unit of checkpointing.
pub type Epoch = u64;

/// The epoch at which a run with no prior progress starts.
pub const INITIAL_EPOCH: u64 = 0;

/// The execution id of a run with no prior progress.
pub const FRESH_EXECUTION: u64 = 0;

/// The index of a worker in a cluster.
#[derive(Debug, Clone, Copy, PartialEq, Eq, Structural)]
pub struct WorkerIndex(pub usize);

/// The number of workers in a cluster.
#[derive(Debug, Clone, Copy, PartialEq, Eq, Structural)]
pub struct WorkerCount(pub usize);

impl WorkerCount {
    /// Every worker index of this cluster, `0` to `count - 1`, in order.
    pub fn iter(&self) -> (r: Vec<WorkerIndex>)
        ensures
            r@.len() == self.0,
            forall|i: int| 0 <= i < r@.len() ==> #[trigger] r@[i] == WorkerIndex(i as usize),
    {
        let mut out: Vec<WorkerIndex> = Vec::new();
        let mut i: usize = 0;
        while i < self.0
            invariant
                i <= self.0,
                out@.len() == i,
                forall|j: int| 0 <= j < i ==> #[trigger] out@[j] == WorkerIndex(j as usize),
            decreases self.0 - i,
        {
            out.push(WorkerIndex(i));
            i = i + 1;
        }
        out
    }
}

/// Identifies one run of a dataflow.
#[derive(Debug, Clone, Copy, PartialEq, Eq, Structural)]
pub struct ExecutionId(pub u64);

/// Identifies one worker's progress record across runs.
#[derive(Debug, Clone, Copy, PartialEq, Eq, Structural)]
pub struct WorkerKey(pub ExecutionId, pub WorkerIndex);

impl View for WorkerKey {
    type V = WorkerKey;

    open spec fn view(&self) -> WorkerKey {
        *self
    }
}

impl StoreKey for WorkerKey {
    fn same_key(&self, other: &Self) -> (r: bool) {
        self.0.0 == other.0.0 && self.1.0 == other.1.0
    }
}

/// A progress fact recorded for one worker.
#[derive(Debug, Clone, Copy, PartialEq, Eq, Structural)]
pub enum ProgressMsg {
    /// The cluster's size, and the epoch this worker has confirmed.
    Init(WorkerCount, Epoch),
}

impl View for ProgressMsg {
    type V = ProgressMsg;

    open spec fn view(&self) -> ProgressMsg {
        *self
    }
}

/// The epoch that a progress message confirms.
pub open spec fn confirmed_epoch(m: ProgressMsg) -> Epoch {
    match m {
        ProgressMsg::Init(_, e) => e,
    }
}

/// The execution and epoch a cluster resumes from.
#[derive(Debug, Clone, Copy, PartialEq, Eq, Structural)]
pub struct ResumeFrom(pub ExecutionId, pub Epoch);

/// The progress recorded per worker key.
pub type ProgressStore = KvStore<WorkerKey, ProgressMsg>;

/// `ex` is the latest execution recorded in `m`.
pub open spec fn is_latest_execution(m: Map<WorkerKey, ProgressMsg>, ex: u64) -> bool {
    &&& exists|k: WorkerKey| #[trigger] m.contains_key(k) && k.0.0 == ex
    &&& forall|k: WorkerKey| #[trigger] m.contains_key(k) ==> k.0.0 <= ex
}

/// `e` is the least epoch confirmed by a worker of execution `ex` in `m`.
pub open spec fn is_min_confirmed(m: Map<WorkerKey, ProgressMsg>, ex: u64, e: Epoch) -> bool {
    &&& exists|k: WorkerKey| #[trigger]
        m.contains_key(k) && k.0.0 == ex && confirmed_epoch(m[k]) == e
    &&& forall|k: WorkerKey| #[trigger]
        m.contains_key(k) && k.0.0 == ex ==> e <= confirmed_epoch(m[k])
}

/// `r` is where a cluster whose recorded progress is `m` resumes: the latest
/// execution with the least epoch any of its workers confirmed; a fresh
/// execution at the initial epoch when nothing is recorded.
pub open spec fn is_resume_point(m: Map<WorkerKey, ProgressMsg>, r: ResumeFrom) -> bool {
    if forall|k: WorkerKey| !#[trigger] m.contains_key(k) {
        r == ResumeFrom(ExecutionId(FRESH_EXECUTION), INITIAL_EPOCH)
    } else {
        is_latest_execution(m, r.0.0) && is_min_confirmed(m, r.0.0, r.1)
    }
}

/// A restart that records its resume point and confirms nothing more
/// resumes from the same point again: restarting is idempotent.
pub proof fn restart_keeps_resume_point(
    m: Map<WorkerKey, ProgressMsg>,
    r: ResumeFrom,
    index: WorkerIndex,
    count: WorkerCount,
)
    requires
        is_resume_point(m, r),
    ensures
        is_resume_point(m.insert(WorkerKey(r.0, index), ProgressMsg::Init(count, r.1)), r),
{
    let key = WorkerKey(r.0, index);
    let m2 = m.insert(key, ProgressMsg::Init(count, r.1));
    assert(m2.contains_key(key));
    assert(!(forall|k: WorkerKey| !#[trigger] m2.contains_key(k)));
    if forall|k: WorkerKey| !#[trigger] m.contains_key(k) {
        assert forall|k: WorkerKey| #[trigger] m2.contains_key(k) implies k == key by {
            assert(!m.contains_key(k));
        }
        assert(m2.contains_key(key) && key.0.0 == r.0.0 && confirmed_epoch(m2[key]) == r.1);
    } else {
        assert(m2.contains_key(key) && key.0.0 == r.0.0 && confirmed_epoch(m2[key]) == r.1);
        assert forall|k: WorkerKey| #[trigger] m2.contains_key(k) implies k.0.0 <= r.0.0 by {
            if k != key {
                assert(m.contains_key(k));
            }
        }
        assert forall|k: WorkerKey| #[trigger]
            m2.contains_key(k) && k.0.0 == r.0.0 implies r.1 <= confirmed_epoch(m2[k]) by {
            if k != key {
                assert(m.contains_key(k));
            }
        }
    }
}

impl KvStore<WorkerKey, ProgressMsg> {
    /// Where the cluster resumes: the latest execution recorded, with the
    /// least epoch confirmed by any of its workers. A straggler caps the
    /// resume epoch of the whole cluster.
    pub fn resume_from(&self) -> (r: ResumeFrom)
        requires
            self.wf(),
        ensures
            is_resume_point(self@, r),
    {
        let n = self.len();
        if n == 0 {
            assert forall|k: WorkerKey| !#[trigger] self@.contains_key(k) by {
                if self@.contains_key(k) {
                    self.lemma_index_of(k);
                }
            }
            return ResumeFrom(ExecutionId(FRESH_EXECUTION), INITIAL_EPOCH);
        }
        let first = self.entry(0);
        let mut best: u64 = (first.0).0.0;
        let mut i: usize = 1;
        while i < n
            invariant
                self.wf(),
                n == self.size(),
                1 <= i <= n,
                exists|j: int| 0 <= j < i && #[trigger] self.key_at(j).0.0 == best,
                forall|j: int| 0 <= j < i ==> #[trigger] self.key_at(j).0.0 <= best,
            decreases n - i,
        {
            let e = self.entry(i);
            if (e.0).0.0 > best {
                best = (e.0).0.0;
                assert(self.key_at(i as int).0.0 == best);
            }
            i = i + 1;
        }
        let mut low: u64 = 0;
        let mut found = false;
        let mut i: usize = 0;
        while i < n
            invariant
                self.wf(),
                n == self.size(),
                0 <= i <= n,
                found ==> exists|j: int|
                    0 <= j < i && #[trigger] self.key_at(j).0.0 == best && confirmed_epoch(
                        self@[self.key_at(j)],
                    ) == low,
                forall|j: int|
                    0 <= j < i && #[trigger] self.key_at(j).0.0 == best ==> found && low
                        <= confirmed_epoch(self@[self.key_at(j)]),
            decreases n - i,
        {
            let e = self.entry(i);
            if (e.0).0.0 == best {
                let ProgressMsg::Init(_, epoch) = *e.1;
                if !found || epoch < low {
                    low = epoch;
                    found = true;
                }
            }
            i = i + 1;
        }
        proof {
            let jb = choose|j: int| 0 <= j < n && #[trigger] self.key_at(j).0.0 == best;
            assert(found);
            let jl = choose|j: int|
                0 <= j < n && #[trigger] self.key_at(j).0.0 == best && confirmed_epoch(
                    self@[self.key_at(j)],
                ) == low;
            self.lemma_key_at(jl);
            assert forall|k: WorkerKey| #[trigger] self@.contains_key(k) implies k.0.0 <= best by {
                self.lemma_index_of(k);
            }
            assert forall|k: WorkerKey| #[trigger]
                self@.contains_key(k) && k.0.0 == best implies low <= confirmed_epoch(self@[k]) by {
                self.lemma_index_of(k);
            }
        }
        ResumeFrom(ExecutionId(best), low)
    }
}

/// Rebuilds the progress store by reading a progress log to exhaustion.
pub fn load_progress<R: KReader<WorkerKey, ProgressMsg>>(reader: &mut R) -> (r: ProgressStore)
    ensures
        r.wf(),
        r@ == apply_changes(Map::empty(), old(reader).pending()),
        final(reader).pending().len() == 0,
{
    let mut store = KvStore::new();
    drain(reader, &mut store);
    store
}

/// The progress record a worker writes as it starts its production run:
/// the cluster's size and the epoch it resumes from.
pub fn progress_init(resume_from: ResumeFrom, index: WorkerIndex, count: WorkerCount) -> (r: KChange<
    WorkerKey,
    ProgressMsg,
>)
    ensures
        r == KChange(
            WorkerKey(resume_from.0, index),
            Change::Upsert(ProgressMsg::Init(count, resume_from.1)),
        ),
{
    KChange(WorkerKey(resume_from.0, index), Change::Upsert(ProgressMsg::Init(count, resume_from.1)))
}

/// Records the start of a production run both in the worker's own progress
/// store and in the progress log.
pub fn record_progress_init<W: KWriter<WorkerKey, ProgressMsg>>(
    store: &mut ProgressStore,
    writer: &mut W,
    resume_from: ResumeFrom,
    index: WorkerIndex,
    count: WorkerCount,
)
    requires
        old(store).wf(),
        old(writer).well_formed(),
    ensures
        final(store).wf(),
        final(writer).well_formed(),
        final(store)@ == old(store)@.insert(
            WorkerKey(resume_from.0, index),
            ProgressMsg::Init(count, resume_from.1),
        ),
        final(writer).contents() == old(writer).contents().insert(
            WorkerKey(resume_from.0, index),
            ProgressMsg::Init(count, resume_from.1),
        ),
{
    store.write(progress_init(resume_from, index, count));
    writer.write(progress_init(resume_from, index, count));
}

} // verus!
