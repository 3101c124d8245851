use bytewax::change::{Change, ChangeLog, KChange};
use bytewax::operators::{reduce, reduce_epoch, reduce_epoch_local, stateful_map};
use bytewax::state::{
    claim_step, load_state, step_key_count, SnapshotKey, StateBytes, StateKey, StepId,
};
use bytewax::stateful::{StateValue, StatefulUnary};
use bytewax::store::KvStore;
use bytewax::window::{main_stream, LateItem, StatefulWindowUnary, WindowId, WindowKey};

fn s(x: &str) -> String {
    x.to_string()
}

fn skey(step: &str, key: &str) -> StateKey {
    StateKey(StepId(s(step)), s(key))
}

fn rec(epoch: u64, step: &str, key: &str, change: Change<StateBytes>) -> KChange<SnapshotKey, StateBytes> {
    KChange(SnapshotKey(epoch, skey(step, key)), change)
}

fn bytes(b: &[u8]) -> StateBytes {
    StateBytes(b.to_vec())
}

#[test]
fn state_log_scenario_discards_key() {
    let mut log = ChangeLog::from_vec(vec![
        rec(1, "s", "a", Change::Upsert(bytes(&[5]))),
        rec(2, "s", "a", Change::Upsert(bytes(&[7]))),
        rec(3, "s", "a", Change::Discard),
    ]);
    let (state, summary) = load_state(&mut log, 10);
    assert!(state.get(&skey("s", "a")).is_none());
    assert_eq!(summary.keys, 0);
}

#[test]
fn state_after_resume_epoch_is_ignored() {
    let mut log = ChangeLog::from_vec(vec![
        rec(1, "s", "a", Change::Upsert(bytes(&[1]))),
        rec(2, "s", "b", Change::Upsert(bytes(&[2]))),
        rec(3, "s", "a", Change::Upsert(bytes(&[3]))),
        rec(3, "s", "b", Change::Discard),
    ]);
    let (state, summary) = load_state(&mut log, 2);
    assert_eq!(state.get(&skey("s", "a")), Some(&bytes(&[1])));
    assert_eq!(state.get(&skey("s", "b")), Some(&bytes(&[2])));
    assert_eq!(summary.keys, 2);
}

#[test]
fn steps_claim_only_their_state() {
    let mut log = ChangeLog::from_vec(vec![
        rec(1, "one", "a", Change::Upsert(bytes(&[1]))),
        rec(1, "two", "a", Change::Upsert(bytes(&[2]))),
        rec(1, "one", "b", Change::Upsert(bytes(&[3]))),
    ]);
    let (mut state, _) = load_state(&mut log, 1);
    let one = claim_step(&mut state, &StepId(s("one")));
    assert_eq!(one.len(), 2);
    assert_eq!(one.get(&skey("one", "b")), Some(&bytes(&[3])));
    assert_eq!(state.len(), 1);
    assert_eq!(state.get(&skey("two", "a")), Some(&bytes(&[2])));
    let again = claim_step(&mut state, &StepId(s("one")));
    assert!(again.is_empty());
}

#[test]
fn state_bytes_duplicate_is_equal() {
    let b = bytes(&[1, 2, 3]);
    assert_eq!(b.duplicate(), b);
}

fn counting_logic(state: Option<u64>, value: u64) -> (Vec<u64>, Change<u64>) {
    let total = state.unwrap_or(0) + value;
    if total >= 10 {
        (vec![total], Change::Discard)
    } else {
        (vec![], Change::Upsert(total))
    }
}

#[test]
fn stateful_discard_starts_fresh() {
    let mut op: StatefulUnary<u64> = StatefulUnary::new(StepId(s("count")), KvStore::new());
    let (out, change) = op.on_item(s("k"), 4, &counting_logic);
    assert!(out.is_empty());
    assert_eq!(change, KChange(s("k"), Change::Upsert(4)));
    let (out, change) = op.on_item(s("k"), 7, &counting_logic);
    assert_eq!(out, vec![11]);
    assert_eq!(change, KChange(s("k"), Change::Discard));
    assert!(op.state_of(&s("k")).is_none());
    let (out, change) = op.on_item(s("k"), 3, &counting_logic);
    assert!(out.is_empty());
    assert_eq!(change, KChange(s("k"), Change::Upsert(3)));
    assert_eq!(op.step_id(), &StepId(s("count")));
}

#[test]
fn stateful_resumes_on_first_touch_only() {
    let mut resume: KvStore<String, u64> = KvStore::new();
    resume.insert(s("k"), 8);
    let mut op = StatefulUnary::new(StepId(s("count")), resume);
    assert_eq!(op.state_of(&s("k")), Some(&8));
    let (out, change) = op.on_item(s("k"), 5, &counting_logic);
    assert_eq!(out, vec![13]);
    assert_eq!(change.1, Change::Discard);
    assert_eq!(op.state_of(&s("k")), None);
    let (_, change) = op.on_item(s("k"), 1, &counting_logic);
    assert_eq!(change.1, Change::Upsert(1));
}

fn sum_fold(acc: Option<u64>, v: u64) -> u64 {
    acc.unwrap_or(0) + v
}

#[test]
fn late_item_goes_to_late_channel() {
    let mut op: StatefulWindowUnary<u64> =
        StatefulWindowUnary::new(StepId(s("win")), KvStore::new(), KvStore::new());
    let first = op.on_item(s("k"), WindowId(0), 2, &sum_fold);
    assert_eq!(first, Ok(KChange(WindowKey(s("k"), WindowId(0)), Change::Upsert(2))));
    let second = op.on_item(s("k"), WindowId(0), 3, &sum_fold);
    assert_eq!(second, Ok(KChange(WindowKey(s("k"), WindowId(0)), Change::Upsert(5))));
    let (result, change) = op.complete_window(s("k"), WindowId(0));
    assert_eq!(result, Some(5));
    assert_eq!(change, KChange(WindowKey(s("k"), WindowId(0)), Change::Discard));
    let late = op.on_item(s("k"), WindowId(0), 9, &sum_fold);
    assert_eq!(late, Err(LateItem { window: WindowId(0) }));
    let other = op.on_item(s("k"), WindowId(1), 9, &sum_fold);
    assert!(other.is_ok());
    let other_key = op.on_item(s("j"), WindowId(0), 1, &sum_fold);
    assert!(other_key.is_ok());
}

#[test]
fn main_stream_drops_late_items() {
    let results = vec![
        (s("a"), Ok(1u64)),
        (s("b"), Err(LateItem { window: WindowId(3) })),
        (s("c"), Ok(2u64)),
    ];
    assert_eq!(main_stream(results), vec![(s("a"), 1), (s("c"), 2)]);
}

#[test]
fn reduce_emits_when_complete() {
    let add = |a: u64, b: u64| a.wrapping_add(b);
    let big = |a: &u64| *a >= 10;
    let mut agg: Option<u64> = None;
    let (done, emit) = reduce(&add, &big, &mut agg, &s("k"), 6);
    assert!(!done);
    assert_eq!(emit, None);
    assert_eq!(agg, Some(6));
    let (done, emit) = reduce(&add, &big, &mut agg, &s("k"), 5);
    assert!(done);
    assert_eq!(emit, Some((s("k"), 11)));
    assert_eq!(agg, Some(11));
}

#[test]
fn reduce_epoch_folds_values() {
    let mul = |a: u64, b: u64| a.wrapping_mul(b);
    let mut agg = None;
    reduce_epoch(&mul, &mut agg, 3u64);
    assert_eq!(agg, Some(3));
    reduce_epoch(&mul, &mut agg, 4u64);
    assert_eq!(agg, Some(12));
}

#[test]
fn reduce_epoch_local_per_key() {
    let add = |a: u64, b: u64| a.wrapping_add(b);
    let mut aggs: KvStore<String, u64> = KvStore::new();
    aggs.insert(s("old"), 100);
    reduce_epoch_local(&add, &mut aggs, vec![(s("a"), 1), (s("b"), 2), (s("a"), 3)]);
    assert_eq!(aggs.get(&s("a")), Some(&4));
    assert_eq!(aggs.get(&s("b")), Some(&2));
    assert_eq!(aggs.get(&s("old")), Some(&100));
    assert_eq!(aggs.len(), 3);
}

#[test]
fn stateful_map_discards_on_none() {
    let mapper = |st: u64, v: u64| {
        let n = st.wrapping_add(v);
        if n > 5 {
            (None, n)
        } else {
            (Some(n), n)
        }
    };
    assert_eq!(stateful_map(&mapper, 1, &s("k"), 2), (false, Some(3), (s("k"), 3)));
    assert_eq!(stateful_map(&mapper, 4, &s("k"), 2), (true, None, (s("k"), 6)));
}

#[test]
fn keys_counted_per_step() {
    let mut log = ChangeLog::from_vec(vec![
        rec(1, "one", "a", Change::Upsert(bytes(&[1]))),
        rec(1, "two", "a", Change::Upsert(bytes(&[2]))),
        rec(1, "one", "b", Change::Upsert(bytes(&[3]))),
        rec(2, "one", "b", Change::Discard),
        rec(2, "one", "c", Change::Upsert(bytes(&[4]))),
    ]);
    let (state, summary) = load_state(&mut log, 2);
    assert_eq!(summary.keys, 3);
    assert_eq!(step_key_count(&state, &StepId(s("one"))), 2);
    assert_eq!(step_key_count(&state, &StepId(s("two"))), 1);
    assert_eq!(step_key_count(&state, &StepId(s("three"))), 0);
}
