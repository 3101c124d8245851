//! The per-key windowed operator: items are folded into the windows the
//! windower assigns them to; an item for a window already marked complete
//! is late and goes to the late channel instead.
use vstd::prelude::*;

use crate::change::{Change, KChange};
use crate::state::StepId;
use crate::stateful::{option_view, StateValue};
use crate::store::{KvStore, StoreKey};

verus! {

/// Identifies one window of a key.
#[derive(Debug, Clone, Copy, PartialEq, Eq, Structural)]
pub struct WindowId(pub u64);

/// A data key together with one of its windows.
#[derive(Debug, Clone, PartialEq, Eq)]
pub struct WindowKey(pub String, pub WindowId);

impl View for WindowKey {
    type V = (Seq<char>, u64);

    open spec fn view(&self) -> (Seq<char>, u64) {
        (self.0@, self.1.0)
    }
}

impl StoreKey for WindowKey {
    fn same_key(&self, other: &Self) -> (r: bool) {
        self.0 == other.0 && self.1.0 == other.1.0
    }
}

/// An item that arrived for a window already marked complete.
#[derive(Debug, Clone, PartialEq, Eq)]
pub struct LateItem {
    /// The window the item was assigned to.
    pub window: WindowId,
}

/// An item for window `w` of `key` is late once that window is complete.
pub open spec fn is_late(closed: Map<(Seq<char>, u64), ()>, key: Seq<char>, w: u64) -> bool {
    closed.contains_key((key, w))
}

/// Once the windower has marked a window complete, every later item for
/// that window is late.
pub proof fn completed_window_is_late(closed: Map<(Seq<char>, u64), ()>, key: Seq<char>, w: u64)
    ensures
        is_late(closed.insert((key, w), ()), key, w),
{
}

/// The runner of one windowed step: per-window accumulators of each key,
/// and the windows already complete.
pub struct StatefulWindowUnary<A: View> {
    step_id: StepId,
    open: KvStore<WindowKey, A>,
    closed: KvStore<WindowKey, ()>,
}

impl<A: StateValue> StatefulWindowUnary<A> {
    /// The accumulator of each open window.
    pub closed spec fn open_windows(&self) -> Map<(Seq<char>, u64), A::V> {
        self.open@
    }

    /// The windows marked complete.
    pub closed spec fn closed_windows(&self) -> Map<(Seq<char>, u64), ()> {
        self.closed@
    }

    /// The step this operator runs.
    pub closed spec fn step(&self) -> Seq<char> {
        self.step_id@
    }

    /// The operator's invariant.
    pub closed spec fn wf(&self) -> bool {
        self.open.wf() && self.closed.wf()
    }

    /// An operator for step `step_id` seeded with recovered window state.
    pub fn new(step_id: StepId, open: KvStore<WindowKey, A>, closed: KvStore<WindowKey, ()>) -> (r:
        Self)
        requires
            open.wf(),
            closed.wf(),
        ensures
            r.wf(),
            r.step() == step_id@,
            r.open_windows() == open@,
            r.closed_windows() == closed@,
    {
        StatefulWindowUnary { step_id, open, closed }
    }

    /// The step this operator runs.
    pub fn step_id(&self) -> (r: &StepId)
        ensures
            r@ == self.step(),
    {
        &self.step_id
    }

    /// Routes one item assigned to `window` of `key`. An item for a
    /// complete window is returned as late and changes nothing. Any other is
    /// folded into the window's accumulator by `fold`, and the new
    /// accumulator is returned as the change to record.
    pub fn on_item<V, F: Fn(Option<A>, V) -> A>(
        &mut self,
        key: String,
        window: WindowId,
        value: V,
        fold: &F,
    ) -> (r: Result<KChange<WindowKey, A>, LateItem>)
        requires
            old(self).wf(),
            forall|a: Option<A>, v: V| #[trigger] fold.requires((a, v)),
        ensures
            final(self).wf(),
            final(self).step() == old(self).step(),
            final(self).closed_windows() == old(self).closed_windows(),
            r is Err <==> is_late(old(self).closed_windows(), key@, window.0),
            r is Err ==> r->Err_0.window == window && final(self).open_windows() == old(
                self,
            ).open_windows(),
            r is Ok ==> r->Ok_0.0@ == (key@, window.0),
            r is Ok ==> r->Ok_0.1 is Upsert,
            r is Ok ==> final(self).open_windows() == old(self).open_windows().insert(
                (key@, window.0),
                r->Ok_0.1->Upsert_0@,
            ),
            r is Ok ==> exists|prior: Option<A>|
                {
                    &&& option_view(prior) == old(self).open_windows().get((key@, window.0))
                    &&& #[trigger] fold.ensures((prior, value), r->Ok_0.1->Upsert_0)
                },
    {
        let wk = WindowKey(key, window);
        if self.closed.contains_key(&wk) {
            return Err(LateItem { window });
        }
        let prior = self.open.remove(&wk);
        let ghost p = prior;
        let acc = fold(prior, value);
        let keep = acc.duplicate();
        let WindowKey(key, window) = wk;
        let k2 = key.clone();
        self.open.insert(WindowKey(k2, window), keep);
        assert(self.open_windows() =~= old(self).open_windows().insert((key@, window.0), acc@));
        assert(fold.ensures((p, value), acc));
        assert(option_view(p) == old(self).open_windows().get((key@, window.0)));
        let r = KChange(WindowKey(key, window), Change::Upsert(acc));
        assert(r.1->Upsert_0 == acc);
        assert(option_view(p) == old(self).open_windows().get((key@, window.0)) && fold.ensures(
            (p, value),
            r.1->Upsert_0,
        ));
        Ok(r)
    }

    /// Marks `window` of `key` complete, as the windower decided. Returns
    /// the window's accumulated result, if any item reached it, and the
    /// change that removes its accumulator.
    pub fn complete_window(&mut self, key: String, window: WindowId) -> (r: (
        Option<A>,
        KChange<WindowKey, A>,
    ))
        requires
            old(self).wf(),
        ensures
            final(self).wf(),
            final(self).step() == old(self).step(),
            final(self).open_windows() == old(self).open_windows().remove((key@, window.0)),
            final(self).closed_windows() == old(self).closed_windows().insert((key@, window.0), ()),
            r.0 is None <==> !old(self).open_windows().contains_key((key@, window.0)),
            r.0 is Some ==> r.0->Some_0@ == old(self).open_windows()[(key@, window.0)],
            r.1.0@ == (key@, window.0),
            r.1.1 is Discard,
    {
        let wk = WindowKey(key, window);
        let result = self.open.remove(&wk);
        let WindowKey(key, window) = wk;
        let k2 = key.clone();
        self.closed.insert(WindowKey(k2, window), ());
        (result, KChange(WindowKey(key, window), Change::Discard))
    }
}

/// The results that go on to the main stream: the `Ok` ones, in order.
pub open spec fn main_results<A>(s: Seq<(String, Result<A, LateItem>)>) -> Seq<(String, A)>
    decreases s.len(),
{
    if s.len() == 0 {
        Seq::empty()
    } else {
        let rest = main_results(s.drop_last());
        match s.last().1 {
            Ok(a) => rest.push((s.last().0, a)),
            Err(_) => rest,
        }
    }
}

/// Keeps the window results and leaves out the late items, in order.
pub fn main_stream<A>(results: Vec<(String, Result<A, LateItem>)>) -> (r: Vec<(String, A)>)
    ensures
        r@ == main_results(results@),
{
    let ghost all = results@;
    let mut rest = results;
    let mut out: Vec<(String, A)> = Vec::new();
    let total: usize = rest.len();
    let mut done: usize = 0;
    while rest.len() > 0
        invariant
            all.len() == total,
            done <= total,
            rest@ == all.skip(done as int),
            out@ == main_results(all.take(done as int)),
        decreases rest.len(),
    {
        let (key, result) = rest.remove(0);
        assert(all.take(done + 1).drop_last() =~= all.take(done as int));
        match result {
            Ok(a) => out.push((key, a)),
            Err(_) => {},
        }
        done = done + 1;
        assert(rest@ =~= all.skip(done as int));
    }
    assert(all.take(done as int) =~= all);
    out
}

} // verus!
