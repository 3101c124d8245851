use bytewax::change::{Change, ChangeLog, KChange, KReader, KWriter};
use bytewax::progress::{
    load_progress, progress_init, record_progress_init, ExecutionId, ProgressMsg, ResumeFrom,
    WorkerCount, WorkerIndex, WorkerKey,
};
use bytewax::store::KvStore;
use std::collections::{BTreeMap, HashMap};

fn s(x: &str) -> String {
    x.to_string()
}

#[test]
fn worker_count_iter_works() {
    let count = WorkerCount(3);
    let found: Vec<_> = count.iter().into_iter().collect();
    let expected = vec![WorkerIndex(0), WorkerIndex(1), WorkerIndex(2)];
    assert_eq!(found, expected);
}

#[test]
fn worker_count_zero_has_no_workers() {
    assert!(WorkerCount(0).iter().is_empty());
}

#[test]
fn change_map_and_typ() {
    let up: Change<u64> = Change::Upsert(4);
    assert_eq!(up.typ(), Change::Upsert(()));
    assert_eq!(up.map(|v| v * 10), Change::Upsert(40));
    let gone: Change<u64> = Change::Discard;
    assert_eq!(gone.typ(), Change::Discard);
    assert_eq!(gone.map(|v| v * 10), Change::Discard);
}

#[test]
fn upserts_then_discard_leave_no_entry() {
    let mut store: KvStore<String, u64> = KvStore::new();
    store.write_many(vec![
        KChange(s("a"), Change::Upsert(5)),
        KChange(s("a"), Change::Upsert(7)),
        KChange(s("a"), Change::Discard),
    ]);
    assert!(store.get(&s("a")).is_none());
    assert!(store.is_empty());
}

#[test]
fn later_upsert_supersedes_earlier() {
    let mut store: KvStore<String, u64> = KvStore::new();
    store.write(KChange(s("a"), Change::Upsert(5)));
    store.write(KChange(s("b"), Change::Upsert(1)));
    store.write(KChange(s("a"), Change::Upsert(7)));
    assert_eq!(store.get(&s("a")), Some(&7));
    assert_eq!(store.get(&s("b")), Some(&1));
    assert_eq!(store.len(), 2);
}

#[test]
fn discard_of_missing_key_changes_nothing() {
    let mut store: KvStore<String, u64> = KvStore::new();
    store.write(KChange(s("a"), Change::Upsert(1)));
    store.write(KChange(s("zz"), Change::Discard));
    assert_eq!(store.get(&s("a")), Some(&1));
    assert_eq!(store.len(), 1);
}

fn sample_changes() -> Vec<KChange<u64, u64>> {
    vec![
        KChange(1, Change::Upsert(10)),
        KChange(2, Change::Upsert(20)),
        KChange(1, Change::Discard),
        KChange(3, Change::Upsert(30)),
        KChange(2, Change::Upsert(21)),
    ]
}

#[test]
fn every_backing_coalesces_alike() {
    let mut hash: HashMap<u64, u64> = HashMap::new();
    hash.write_many(sample_changes());
    let mut tree: BTreeMap<u64, u64> = BTreeMap::new();
    tree.write_many(sample_changes());
    let mut store: KvStore<u64, u64> = KvStore::new();
    store.write_many(sample_changes());
    let mut log: ChangeLog<u64, u64> = ChangeLog::new();
    log.write_many(sample_changes());
    let mut drained: KvStore<u64, u64> = KvStore::new();
    bytewax::change::drain(&mut log, &mut drained);

    let mut expected = HashMap::new();
    expected.insert(2u64, 21u64);
    expected.insert(3u64, 30u64);
    assert_eq!(hash, expected);
    assert_eq!(tree.into_iter().collect::<HashMap<_, _>>(), expected);
    for m in [&store, &drained] {
        assert_eq!(m.len(), 2);
        assert_eq!(m.get(&1), None);
        assert_eq!(m.get(&2), Some(&21));
        assert_eq!(m.get(&3), Some(&30));
    }
}

#[test]
fn replaying_changes_twice_is_harmless() {
    let mut once: HashMap<u64, u64> = HashMap::new();
    once.write_many(sample_changes());
    let mut twice = once.clone();
    twice.write_many(sample_changes());
    assert_eq!(once, twice);
}

#[test]
fn change_log_reads_in_order() {
    let mut log = ChangeLog::from_vec(vec![
        KChange(s("x"), Change::Upsert(1u64)),
        KChange(s("y"), Change::Discard),
    ]);
    assert_eq!(log.len(), 2);
    assert_eq!(log.read_many(), Some(vec![KChange(s("x"), Change::Upsert(1u64))]));
    assert_eq!(log.read(), Some(KChange(s("y"), Change::Discard)));
    assert_eq!(log.read(), None);
    assert_eq!(log.read_many(), None);
}

fn init(ex: u64, worker: usize, count: usize, epoch: u64) -> KChange<WorkerKey, ProgressMsg> {
    KChange(
        WorkerKey(ExecutionId(ex), WorkerIndex(worker)),
        Change::Upsert(ProgressMsg::Init(WorkerCount(count), epoch)),
    )
}

#[test]
fn straggler_caps_resume_epoch() {
    let mut log = ChangeLog::from_vec(vec![init(0, 0, 3, 10), init(0, 1, 3, 10), init(0, 2, 3, 6)]);
    let store = load_progress(&mut log);
    assert_eq!(store.resume_from(), ResumeFrom(ExecutionId(0), 6));
    assert_eq!(log.len(), 0);
}

#[test]
fn no_progress_resumes_fresh() {
    let mut log: ChangeLog<WorkerKey, ProgressMsg> = ChangeLog::new();
    let store = load_progress(&mut log);
    assert_eq!(store.resume_from(), ResumeFrom(ExecutionId(0), 0));
}

#[test]
fn latest_execution_wins() {
    let mut log = ChangeLog::from_vec(vec![
        init(0, 0, 2, 50),
        init(0, 1, 2, 40),
        init(1, 0, 2, 12),
        init(1, 1, 2, 9),
        init(1, 1, 2, 15),
    ]);
    let store = load_progress(&mut log);
    assert_eq!(store.resume_from(), ResumeFrom(ExecutionId(1), 12));
}

#[test]
fn progress_init_is_recorded_twice() {
    let rf = ResumeFrom(ExecutionId(4), 8);
    assert_eq!(progress_init(rf, WorkerIndex(1), WorkerCount(2)), init(4, 1, 2, 8));
    let mut store: KvStore<WorkerKey, ProgressMsg> = KvStore::new();
    let mut log: ChangeLog<WorkerKey, ProgressMsg> = ChangeLog::new();
    record_progress_init(&mut store, &mut log, rf, WorkerIndex(1), WorkerCount(2));
    assert_eq!(
        store.get(&WorkerKey(ExecutionId(4), WorkerIndex(1))),
        Some(&ProgressMsg::Init(WorkerCount(2), 8))
    );
    assert_eq!(log.read(), Some(init(4, 1, 2, 8)));
    assert_eq!(store.resume_from(), rf);
}

#[test]
fn restart_without_progress_resumes_at_same_point() {
    let mut log = ChangeLog::from_vec(vec![init(3, 0, 3, 10), init(3, 1, 3, 10), init(3, 2, 3, 6)]);
    let mut store = load_progress(&mut log);
    let rf = store.resume_from();
    assert_eq!(rf, ResumeFrom(ExecutionId(3), 6));
    let mut sink: ChangeLog<WorkerKey, ProgressMsg> = ChangeLog::new();
    for i in 0..3 {
        record_progress_init(&mut store, &mut sink, rf, WorkerIndex(i), WorkerCount(3));
    }
    assert_eq!(store.resume_from(), rf);
    assert_eq!(sink.len(), 3);
}
