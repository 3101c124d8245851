//! A "change data capture" model: a stream of keyed changes to a key-value
//! store. The store does not model time, so only the latest change to each
//! key has to be retained.
use vstd::prelude::*;

verus! {

/// A change to the value held under one key.
#[derive(Debug, Clone, PartialEq, Eq)]
pub enum Change<V> {
    /// Insert the value, replacing any earlier one.
    Upsert(V),
    /// Remove the key.
    Discard,
}

/// The kind of a change, without its data.
pub type ChangeType = Change<()>;

impl<V> Change<V> {
    /// Applies `f` to the value of an `Upsert`; a `Discard` stays a `Discard`.
    pub fn map<U, F: Fn(V) -> U>(self, f: F) -> (r: Change<U>)
        requires
            self is Upsert ==> f.requires((self->Upsert_0,)),
        ensures
            self is Discard ==> r is Discard,
            self is Upsert ==> r is Upsert && f.ensures((self->Upsert_0,), r->Upsert_0),
    {
        match self {
            Change::Upsert(v) => Change::Upsert(f(v)),
            Change::Discard => Change::Discard,
        }
    }

    /// The kind of this change.
    pub fn typ(&self) -> (r: ChangeType)
        ensures
            self is Upsert ==> r == Change::Upsert(()),
            self is Discard ==> r == Change::<()>::Discard,
    {
        match self {
            Change::Upsert(..) => Change::Upsert(()),
            Change::Discard => Change::Discard,
        }
    }
}

/// A change to the value held under a key.
#[derive(Debug, Clone, PartialEq, Eq)]
pub struct KChange<K, V>(pub K, pub Change<V>);

/// The store `m` after one keyed change: `Upsert` inserts or replaces,
/// `Discard` removes.
pub open spec fn apply_change<K: View, V: View>(
    m: Map<K::V, V::V>,
    kc: KChange<K, V>,
) -> Map<K::V, V::V> {
    match kc.1 {
        Change::Upsert(v) => m.insert(kc.0@, v@),
        Change::Discard => m.remove(kc.0@),
    }
}

/// The store `m` after the changes of `s`, applied in order.
pub open spec fn apply_changes<K: View, V: View>(
    m: Map<K::V, V::V>,
    s: Seq<KChange<K, V>>,
) -> Map<K::V, V::V>
    decreases s.len(),
{
    if s.len() == 0 {
        m
    } else {
        apply_change(apply_changes(m, s.drop_last()), s.last())
    }
}

/// One more change extends the fold of a prefix by that change.
pub proof fn lemma_apply_changes_step<K: View, V: View>(
    m: Map<K::V, V::V>,
    s: Seq<KChange<K, V>>,
    i: int,
)
    requires
        0 <= i < s.len(),
    ensures
        apply_changes(m, s.take(i + 1)) == apply_change(apply_changes(m, s.take(i)), s[i]),
{
    assert(s.take(i + 1).drop_last() =~= s.take(i));
}

/// Some change of `s` is to key `k`.
pub open spec fn touches<K: View, V>(s: Seq<KChange<K, V>>, k: K::V) -> bool {
    exists|i: int| 0 <= i < s.len() && #[trigger] s[i].0@ == k
}

/// Two maps agree at `k`: both hold it with the same value, or neither does.
pub open spec fn agree_at<A, B>(m1: Map<A, B>, m2: Map<A, B>, k: A) -> bool {
    &&& m1.contains_key(k) == m2.contains_key(k)
    &&& m1.contains_key(k) ==> m1[k] == m2[k]
}

/// A key no change touches keeps what it held.
proof fn lemma_untouched<K: View, V: View>(m: Map<K::V, V::V>, s: Seq<KChange<K, V>>, k: K::V)
    requires
        !touches(s, k),
    ensures
        agree_at(apply_changes(m, s), m, k),
    decreases s.len(),
{
    if s.len() > 0 {
        let p = s.drop_last();
        assert(!touches(p, k)) by {
            if touches(p, k) {
                let i = choose|i: int| 0 <= i < p.len() && #[trigger] p[i].0@ == k;
                assert(s[i].0@ == k);
            }
        }
        lemma_untouched(m, p, k);
        assert(s[s.len() - 1].0@ != k);
    }
}

/// A key some change touches ends the same whatever the store held.
proof fn lemma_touched<K: View, V: View>(
    m1: Map<K::V, V::V>,
    m2: Map<K::V, V::V>,
    s: Seq<KChange<K, V>>,
    k: K::V,
)
    requires
        touches(s, k),
    ensures
        agree_at(apply_changes(m1, s), apply_changes(m2, s), k),
    decreases s.len(),
{
    let p = s.drop_last();
    if s.last().0@ != k {
        assert(touches(p, k)) by {
            let i = choose|i: int| 0 <= i < s.len() && #[trigger] s[i].0@ == k;
            assert(i != s.len() - 1);
            assert(p[i].0@ == k);
        }
        lemma_touched(m1, m2, p, k);
    }
}

/// Replaying a sequence of changes over a store that already reflects it
/// changes nothing: after a restart, records that are read again are not
/// counted twice.
pub proof fn replaying_changes_is_idempotent<K: View, V: View>(
    m: Map<K::V, V::V>,
    s: Seq<KChange<K, V>>,
)
    ensures
        apply_changes(apply_changes(m, s), s) == apply_changes(m, s),
{
    let once = apply_changes(m, s);
    let twice = apply_changes(once, s);
    assert forall|k: K::V| #[trigger] agree_at(twice, once, k) by {
        if touches(s, k) {
            lemma_touched(once, m, s, k);
        } else {
            lemma_untouched(once, s, k);
        }
    }
    assert forall|k: K::V| #[trigger] twice.contains_key(k) == once.contains_key(k) by {
        assert(agree_at(twice, once, k));
    }
    assert forall|k: K::V| #[trigger] twice.contains_key(k) implies twice[k] == once[k] by {
        assert(agree_at(twice, once, k));
    }
    assert(twice =~= once);
}

/// A store into which keyed changes are written, in order.
pub trait KWriter<K: View, V: View>: Sized {
    /// What the store holds: the latest value of each key.
    spec fn contents(&self) -> Map<K::V, V::V>;

    /// The store's internal invariant.
    spec fn well_formed(&self) -> bool;

    /// Applies one change.
    fn write(&mut self, kchange: KChange<K, V>)
        requires
            old(self).well_formed(),
        ensures
            final(self).well_formed(),
            final(self).contents() == apply_change(old(self).contents(), kchange),
    ;

    /// Applies each change of `batch`, in order.
    fn write_many(&mut self, batch: Vec<KChange<K, V>>)
        requires
            old(self).well_formed(),
        ensures
            final(self).well_formed(),
            final(self).contents() == apply_changes(old(self).contents(), batch@),
    ;
}

/// Applying `a` and then `b` is applying `a + b`.
pub proof fn lemma_apply_changes_append<K: View, V: View>(
    m: Map<K::V, V::V>,
    a: Seq<KChange<K, V>>,
    b: Seq<KChange<K, V>>,
)
    ensures
        apply_changes(m, a + b) == apply_changes(apply_changes(m, a), b),
    decreases b.len(),
{
    if b.len() == 0 {
        assert(a + b =~= a);
    } else {
        lemma_apply_changes_append(m, a, b.drop_last());
        assert((a + b).drop_last() =~= a + b.drop_last());
    }
}

/// A source of keyed changes, read in order. A store may have coalesced
/// the changes to one key, so reading is not the inverse of writing.
pub trait KReader<K, V>: Sized {
    /// The changes that are still to be read, in order.
    spec fn pending(&self) -> Seq<KChange<K, V>>;

    /// The next change, or `None` once every change has been read.
    fn read(&mut self) -> (r: Option<KChange<K, V>>)
        ensures
            old(self).pending().len() == 0 ==> r is None,
            old(self).pending().len() == 0 ==> final(self).pending() == old(self).pending(),
            old(self).pending().len() > 0 ==> r == Some(old(self).pending()[0]),
            old(self).pending().len() > 0 ==> final(self).pending() == old(self).pending().drop_first(),
    ;

    /// The next changes as a batch, in order, or `None` once every change
    /// has been read.
    fn read_many(&mut self) -> (r: Option<Vec<KChange<K, V>>>)
        ensures
            old(self).pending().len() == 0 <==> r is None,
            old(self).pending().len() == 0 ==> final(self).pending() == old(self).pending(),
            r is Some ==> {
                let b = r->Some_0@;
                &&& 0 < b.len() <= old(self).pending().len()
                &&& b == old(self).pending().take(b.len() as int)
                &&& final(self).pending() == old(self).pending().skip(b.len() as int)
            },
    ;
}

/// Reads `reader` to exhaustion, writing every change into `writer` in
/// the order read.
pub fn drain<K: View, V: View, R: KReader<K, V>, W: KWriter<K, V>>(reader: &mut R, writer: &mut W)
    requires
        old(writer).well_formed(),
    ensures
        final(writer).well_formed(),
        final(reader).pending().len() == 0,
        final(writer).contents() == apply_changes(old(writer).contents(), old(reader).pending()),
{
    let ghost start = writer.contents();
    let ghost all = reader.pending();
    let ghost mut done: int = 0;
    loop
        invariant
            writer.well_formed(),
            0 <= done <= all.len(),
            reader.pending() == all.skip(done),
            writer.contents() == apply_changes(start, all.take(done)),
        ensures
            writer.well_formed(),
            reader.pending().len() == 0,
            writer.contents() == apply_changes(start, all),
        decreases reader.pending().len(),
    {
        match reader.read() {
            Some(next) => {
                proof {
                    lemma_apply_changes_step(start, all, done);
                }
                writer.write(next);
                proof {
                    done = done + 1;
                }
                assert(reader.pending() =~= all.skip(done));
            },
            None => {
                assert(all.take(done) =~= all);
                break ;
            },
        }
    }
}

/// An in-memory log of keyed changes: writes append, reads consume from
/// the front.
pub struct ChangeLog<K, V> {
    items: Vec<KChange<K, V>>,
}

impl<K, V> ChangeLog<K, V> {
    /// The changes held, oldest first.
    pub closed spec fn items(&self) -> Seq<KChange<K, V>> {
        self.items@
    }

    /// An empty log.
    pub fn new() -> (r: Self)
        ensures
            r.items() == Seq::<KChange<K, V>>::empty(),
    {
        ChangeLog { items: Vec::new() }
    }

    /// A log that holds `items`, oldest first.
    pub fn from_vec(items: Vec<KChange<K, V>>) -> (r: Self)
        ensures
            r.items() == items@,
    {
        ChangeLog { items }
    }

    /// The number of changes held.
    pub fn len(&self) -> (r: usize)
        ensures
            r == self.items().len(),
    {
        self.items.len()
    }
}

impl<K: View, V: View> KWriter<K, V> for ChangeLog<K, V> {
    open spec fn contents(&self) -> Map<K::V, V::V> {
        apply_changes(Map::empty(), self.items())
    }

    open spec fn well_formed(&self) -> bool {
        true
    }

    fn write(&mut self, kchange: KChange<K, V>) {
        let ghost before = self.items@;
        self.items.push(kchange);
        assert(self.items@.drop_last() =~= before);
    }

    fn write_many(&mut self, batch: Vec<KChange<K, V>>) {
        let mut batch = batch;
        proof {
            lemma_apply_changes_append(Map::empty(), self.items@, batch@);
        }
        self.items.append(&mut batch);
    }
}

impl<K, V> KReader<K, V> for ChangeLog<K, V> {
    open spec fn pending(&self) -> Seq<KChange<K, V>> {
        self.items()
    }

    fn read(&mut self) -> (r: Option<KChange<K, V>>) {
        if self.items.len() == 0 {
            None
        } else {
            let first = self.items.remove(0);
            assert(self.items@ =~= old(self).items@.drop_first());
            Some(first)
        }
    }

    fn read_many(&mut self) -> (r: Option<Vec<KChange<K, V>>>) {
        match self.read() {
            Some(first) => {
                let mut batch = Vec::new();
                batch.push(first);
                assert(batch@ =~= old(self).items@.take(1));
                assert(self.items@ =~= old(self).items@.skip(1));
                Some(batch)
            },
            None => None,
        }
    }
}

impl<K: View, V: View, W: KWriter<K, V>> KWriter<K, V> for Box<W> {
    open spec fn contents(&self) -> Map<K::V, V::V> {
        (**self).contents()
    }

    open spec fn well_formed(&self) -> bool {
        (**self).well_formed()
    }

    fn write(&mut self, kchange: KChange<K, V>) {
        (**self).write(kchange)
    }

    fn write_many(&mut self, batch: Vec<KChange<K, V>>) {
        (**self).write_many(batch)
    }
}

impl<K, V, R: KReader<K, V>> KReader<K, V> for Box<R> {
    open spec fn pending(&self) -> Seq<KChange<K, V>> {
        (**self).pending()
    }

    fn read(&mut self) -> (r: Option<KChange<K, V>>) {
        (**self).read()
    }

    fn read_many(&mut self) -> (r: Option<Vec<KChange<K, V>>>) {
        (**self).read_many()
    }
}

} // verus!
