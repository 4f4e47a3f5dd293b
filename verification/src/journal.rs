//! The changes a transaction makes, and the undo log of a transaction that applies them at once.
//!
//! A change applied at once is recorded with what it replaced; replaying the records backwards puts
//! every value back the way it was. A transaction that keeps its changes back until the commit only
//! needs to know what the changes do, in order: [`apply_all`].
use vstd::prelude::*;

use crate::buckets::{
    after_insert, after_remove, law_get_after_insert, law_get_after_remove,
    lemma_texts_after_insert, lemma_texts_after_remove, lookup, texts, with_bucket, Buckets,
};
use crate::names::{Bucket, Key};
use crate::values::Value;

verus! {

/// Every value of a store, under the pair of names it is found by.
pub open spec fn entries_of(m: Map<Seq<char>, Map<Seq<char>, Seq<char>>>) -> Map<
    (Seq<char>, Seq<char>),
    Seq<char>,
> {
    Map::new(
        |p: (Seq<char>, Seq<char>)| m.dom().contains(p.0) && m[p.0].dom().contains(p.1),
        |p: (Seq<char>, Seq<char>)| m[p.0][p.1],
    )
}

/// Puts back what one recorded change replaced.
pub open spec fn undo_one(
    e: Map<(Seq<char>, Seq<char>), Seq<char>>,
    u: (Seq<char>, Seq<char>, Option<Seq<char>>),
) -> Map<(Seq<char>, Seq<char>), Seq<char>> {
    match u.2 {
        Some(v) => e.insert((u.0, u.1), v),
        None => e.remove((u.0, u.1)),
    }
}

/// Puts back what every recorded change replaced, the most recent first.
pub open spec fn replay(
    e: Map<(Seq<char>, Seq<char>), Seq<char>>,
    log: Seq<(Seq<char>, Seq<char>, Option<Seq<char>>)>,
) -> Map<(Seq<char>, Seq<char>), Seq<char>>
    decreases log.len(),
{
    if log.len() == 0 {
        e
    } else {
        replay(undo_one(e, log.last()), log.drop_last())
    }
}

/// Inserting a value changes exactly one entry.
pub proof fn lemma_entries_after_insert(
    m: Map<Seq<char>, Map<Seq<char>, Seq<char>>>,
    b: Seq<char>,
    k: Seq<char>,
    v: Seq<char>,
)
    ensures
        entries_of(after_insert(m, b, k, v)) == entries_of(m).insert((b, k), v),
{
    assert(entries_of(after_insert(m, b, k, v)) =~= entries_of(m).insert((b, k), v));
}

/// Removing a value removes exactly one entry, if it was there.
pub proof fn lemma_entries_after_remove(
    m: Map<Seq<char>, Map<Seq<char>, Seq<char>>>,
    b: Seq<char>,
    k: Seq<char>,
)
    ensures
        entries_of(after_remove(m, b, k)) == entries_of(m).remove((b, k)),
{
    assert(entries_of(after_remove(m, b, k)) =~= entries_of(m).remove((b, k)));
}

/// Recording an insertion with the value it replaced leaves the replayed store unchanged.
pub proof fn lemma_record_insert(
    m: Map<Seq<char>, Map<Seq<char>, Seq<char>>>,
    log: Seq<(Seq<char>, Seq<char>, Option<Seq<char>>)>,
    b: Seq<char>,
    k: Seq<char>,
    v: Seq<char>,
)
    ensures
        replay(entries_of(after_insert(m, b, k, v)), log.push((b, k, lookup(m, b, k))))
            == replay(entries_of(m), log),
{
    lemma_entries_after_insert(m, b, k, v);
    let log2 = log.push((b, k, lookup(m, b, k)));
    assert(log2.drop_last() =~= log);
    assert(undo_one(entries_of(after_insert(m, b, k, v)), log2.last()) =~= entries_of(m));
}

/// Recording a removal with the value it took leaves the replayed store unchanged.
pub proof fn lemma_record_remove(
    m: Map<Seq<char>, Map<Seq<char>, Seq<char>>>,
    log: Seq<(Seq<char>, Seq<char>, Option<Seq<char>>)>,
    b: Seq<char>,
    k: Seq<char>,
)
    ensures
        replay(entries_of(after_remove(m, b, k)), log.push((b, k, lookup(m, b, k))))
            == replay(entries_of(m), log),
{
    lemma_entries_after_remove(m, b, k);
    let log2 = log.push((b, k, lookup(m, b, k)));
    assert(log2.drop_last() =~= log);
    assert(undo_one(entries_of(after_remove(m, b, k)), log2.last()) =~= entries_of(m));
}

/// A change a transaction can make: storing a value, or taking one away.
pub enum Change {
    Put(Seq<char>, Seq<char>, Seq<char>),
    Take(Seq<char>, Seq<char>),
}

/// The buckets after one change.
pub open spec fn apply(m: Map<Seq<char>, Map<Seq<char>, Seq<char>>>, c: Change) -> Map<
    Seq<char>,
    Map<Seq<char>, Seq<char>>,
> {
    match c {
        Change::Put(b, k, v) => after_insert(m, b, k, v),
        Change::Take(b, k) => after_remove(m, b, k),
    }
}

/// What a change is recorded as: the names it was made under and the value it replaced.
pub open spec fn record_of(m: Map<Seq<char>, Map<Seq<char>, Seq<char>>>, c: Change) -> (
    Seq<char>,
    Seq<char>,
    Option<Seq<char>>,
) {
    match c {
        Change::Put(b, k, v) => (b, k, lookup(m, b, k)),
        Change::Take(b, k) => (b, k, lookup(m, b, k)),
    }
}

/// The buckets after a sequence of changes, applied in order.
pub open spec fn apply_all(m: Map<Seq<char>, Map<Seq<char>, Seq<char>>>, cs: Seq<Change>) -> Map<
    Seq<char>,
    Map<Seq<char>, Seq<char>>,
>
    decreases cs.len(),
{
    if cs.len() == 0 {
        m
    } else {
        apply(apply_all(m, cs.drop_last()), cs.last())
    }
}

/// The log a sequence of changes leaves behind, oldest first.
pub open spec fn log_of(m: Map<Seq<char>, Map<Seq<char>, Seq<char>>>, cs: Seq<Change>) -> Seq<
    (Seq<char>, Seq<char>, Option<Seq<char>>),
>
    decreases cs.len(),
{
    if cs.len() == 0 {
        Seq::empty()
    } else {
        log_of(m, cs.drop_last()).push(record_of(apply_all(m, cs.drop_last()), cs.last()))
    }
}

/// Whatever changes a transaction makes, replaying the log they leave behind, most recent first,
/// gives back every value the buckets held before the first change, and nothing else.
pub proof fn law_undo_restores(m: Map<Seq<char>, Map<Seq<char>, Seq<char>>>, cs: Seq<Change>)
    ensures
        replay(entries_of(apply_all(m, cs)), log_of(m, cs)) == entries_of(m),
    decreases cs.len(),
{
    if cs.len() > 0 {
        let prev = apply_all(m, cs.drop_last());
        match cs.last() {
            Change::Put(b, k, v) => lemma_record_insert(prev, log_of(m, cs.drop_last()), b, k, v),
            Change::Take(b, k) => lemma_record_remove(prev, log_of(m, cs.drop_last()), b, k),
        }
        law_undo_restores(m, cs.drop_last());
    }
}

/// The bucket a change is made in.
pub open spec fn bucket_of(c: Change) -> Seq<char> {
    match c {
        Change::Put(b, _, _) => b,
        Change::Take(b, _) => b,
    }
}

/// The change is made under `bucket` and `key`.
pub open spec fn touches(c: Change, bucket: Seq<char>, key: Seq<char>) -> bool {
    match c {
        Change::Put(b, k, _) => b == bucket && k == key,
        Change::Take(b, k) => b == bucket && k == key,
    }
}

/// Every bucket a change of `cs` stores a value in is among `names`.
pub open spec fn puts_within(cs: Seq<Change>, names: Set<Seq<char>>) -> bool {
    forall|i: int| 0 <= i < cs.len() && #[trigger] cs[i] is Put ==> names.contains(bucket_of(cs[i]))
}

/// Adding an empty bucket adds no value.
pub proof fn lemma_entries_with_bucket(m: Map<Seq<char>, Map<Seq<char>, Seq<char>>>, b: Seq<char>)
    ensures
        entries_of(with_bucket(m, b)) == entries_of(m),
{
    assert(entries_of(with_bucket(m, b)) =~= entries_of(m));
}

/// A change and the adding of an empty bucket can be made in either order.
pub proof fn lemma_apply_with_bucket(m: Map<Seq<char>, Map<Seq<char>, Seq<char>>>, c: Change, b: Seq<char>)
    ensures
        apply(with_bucket(m, b), c) == with_bucket(apply(m, c), b),
{
    match c {
        Change::Put(x, k, v) => {
            if x == b {
                assert(apply(with_bucket(m, b), c)[b] =~= with_bucket(apply(m, c), b)[b]);
            }
        },
        Change::Take(x, k) => {
            if x == b && !m.dom().contains(b) {
                assert(apply(with_bucket(m, b), c)[b] =~= with_bucket(apply(m, c), b)[b]);
            }
        },
    }
    assert(apply(with_bucket(m, b), c) =~= with_bucket(apply(m, c), b));
}

/// Changes and the adding of an empty bucket can be made in either order.
pub proof fn lemma_apply_all_with_bucket(
    m: Map<Seq<char>, Map<Seq<char>, Seq<char>>>,
    cs: Seq<Change>,
    b: Seq<char>,
)
    ensures
        apply_all(with_bucket(m, b), cs) == with_bucket(apply_all(m, cs), b),
    decreases cs.len(),
{
    if cs.len() > 0 {
        lemma_apply_all_with_bucket(m, cs.drop_last(), b);
        lemma_apply_with_bucket(apply_all(m, cs.drop_last()), cs.last(), b);
    }
}

/// Changes that store values only in buckets already there create no bucket and remove none.
pub proof fn lemma_apply_all_keeps_buckets(m: Map<Seq<char>, Map<Seq<char>, Seq<char>>>, cs: Seq<Change>)
    requires
        puts_within(cs, m.dom()),
    ensures
        apply_all(m, cs).dom() == m.dom(),
    decreases cs.len(),
{
    if cs.len() > 0 {
        let init = cs.drop_last();
        assert forall|i: int| 0 <= i < init.len() && #[trigger] init[i] is Put implies m.dom().contains(
            bucket_of(init[i]),
        ) by {
            assert(init[i] == cs[i]);
        }
        lemma_apply_all_keeps_buckets(m, init);
        let prev = apply_all(m, init);
        assert(cs[cs.len() - 1] == cs.last());
        match cs.last() {
            Change::Put(b, k, v) => {
                assert(apply(prev, cs.last()).dom() =~= prev.dom());
            },
            Change::Take(b, k) => {
                assert(apply(prev, cs.last()).dom() =~= prev.dom());
            },
        }
    }
}

/// What the first `i` changes leave under a bucket and key: the last of them made there decides,
/// and if none was, the `i - 1` before it leave what they left.
pub proof fn lemma_lookup_step(
    m: Map<Seq<char>, Map<Seq<char>, Seq<char>>>,
    cs: Seq<Change>,
    i: int,
    b: Seq<char>,
    k: Seq<char>,
)
    requires
        0 < i <= cs.len(),
    ensures
        touches(cs[i - 1], b, k) ==> lookup(apply_all(m, cs.take(i)), b, k) == match cs[i - 1] {
            Change::Put(_, _, v) => Some(v),
            Change::Take(_, _) => None::<Seq<char>>,
        },
        !touches(cs[i - 1], b, k) ==> lookup(apply_all(m, cs.take(i)), b, k) == lookup(
            apply_all(m, cs.take(i - 1)),
            b,
            k,
        ),
{
    assert(cs.take(i).drop_last() =~= cs.take(i - 1));
    assert(cs.take(i).last() == cs[i - 1]);
    let prev = apply_all(m, cs.take(i - 1));
    match cs[i - 1] {
        Change::Put(x, y, v) => law_get_after_insert(prev, x, y, v, b, k),
        Change::Take(x, y) => law_get_after_remove(prev, x, y, b, k),
    }
}

/// Every recorded change that replaced a value was made in a bucket among `names`.
pub open spec fn replaced_within(
    log: Seq<(Seq<char>, Seq<char>, Option<Seq<char>>)>,
    names: Set<Seq<char>>,
) -> bool {
    forall|i: int| 0 <= i < log.len() && (#[trigger] log[i]).2 is Some ==> names.contains(log[i].0)
}

/// One change, recorded with the value it replaced.
pub struct Undo {
    bucket: Bucket,
    key: Key,
    previous: Option<Value>,
}

impl Undo {
    /// The names the change was made under, and the text of the value it replaced.
    pub closed spec fn view(&self) -> (Seq<char>, Seq<char>, Option<Seq<char>>) {
        (
            self.bucket@,
            self.key@,
            match self.previous {
                Some(v) => Some(v@),
                None => None,
            },
        )
    }
}

/// The changes a transaction has made, oldest first.
pub struct Journal {
    undo: Vec<Undo>,
}

impl Journal {
    /// The recorded changes, oldest first.
    pub closed spec fn view(&self) -> Seq<(Seq<char>, Seq<char>, Option<Seq<char>>)> {
        self.undo@.map_values(|u: Undo| u@)
    }

    /// Starts an empty log.
    pub fn new() -> (r: Self)
        ensures
            r@ == Seq::<(Seq<char>, Seq<char>, Option<Seq<char>>)>::empty(),
    {
        let r = Journal { undo: Vec::new() };
        assert(r@ =~= Seq::<(Seq<char>, Seq<char>, Option<Seq<char>>)>::empty());
        r
    }

    /// Records a change made under `bucket` and `key`, and the value it replaced.
    pub fn record(&mut self, bucket: Bucket, key: Key, previous: Option<Value>)
        ensures
            final(self)@ == old(self)@.push(
                (
                    bucket@,
                    key@,
                    match previous {
                        Some(v) => Some(v@),
                        None => None,
                    },
                ),
            ),
    {
        let u = Undo { bucket, key, previous };
        self.undo.push(u);
        assert(self@ =~= old(self)@.push(u@));
    }

    /// Puts back what every recorded change replaced, the most recent first, and forgets them.
    ///
    /// A value that was inserted where none was is removed again; its bucket stays, empty. No bucket
    /// is added or taken away.
    pub fn undo_all(&mut self, buckets: &mut Buckets<Bucket, Key, Value>)
        requires
            replaced_within(old(self)@, old(buckets)@.dom()),
        ensures
            final(self)@ == Seq::<(Seq<char>, Seq<char>, Option<Seq<char>>)>::empty(),
            entries_of(texts(final(buckets)@)) == replay(entries_of(texts(old(buckets)@)), old(self)@),
            final(buckets)@.dom() == old(buckets)@.dom(),
    {
        while self.undo.len() > 0
            invariant
                replay(entries_of(texts(buckets@)), self@) == replay(
                    entries_of(texts(old(buckets)@)),
                    old(self)@,
                ),
                buckets@.dom() == old(buckets)@.dom(),
                replaced_within(self@, old(buckets)@.dom()),
            decreases self.undo@.len(),
        {
            let ghost log = self@;
            let ghost m = buckets@;
            let u = self.undo.pop().unwrap();
            assert(self@ =~= log.drop_last());
            assert(u@ == log.last());
            assert(log.last() == log[log.len() - 1]);
            let Undo { bucket, key, previous } = u;
            let ghost b = bucket@;
            let ghost k = key@;
            match previous {
                Some(value) => {
                    let ghost v = value@;
                    buckets.insert(bucket, key, value);
                    proof {
                        assert(buckets@.dom() =~= m.dom());
                        lemma_texts_after_insert(m, b, k, value);
                        lemma_entries_after_insert(texts(m), b, k, v);
                    }
                },
                None => {
                    buckets.remove(bucket.as_str(), key.as_str());
                    proof {
                        assert(buckets@.dom() =~= m.dom());
                        lemma_texts_after_remove(m, b, k);
                        lemma_entries_after_remove(texts(m), b, k);
                    }
                },
            }
        }
        assert(self@ =~= Seq::<(Seq<char>, Seq<char>, Option<Seq<char>>)>::empty());
    }
}

} // verus!
