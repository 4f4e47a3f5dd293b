//! The machinery every borrowing transaction is built on.
//!
//! A session borrows a store's buckets exclusively and keeps its changes back, in order, until it is
//! committed; reads through the session see them as if they were made. Committing applies them to
//! the buckets; rolling back, or dropping the session undecided, discards them. The one thing a
//! session does to the buckets at once is to add, empty, a bucket that a value is stored in and that
//! was missing, so that a transaction that is taken back leaves the buckets it created behind, empty.
//!
//! Since nothing is written before the commit, a session needs no `Drop`: whatever way it ends
//! without a commit, every value of the store is what it was when the session was opened. Nothing
//! reports a session that was dropped undecided; see [`law_dropped_session_changes_nothing`].
use vstd::prelude::*;

use crate::buckets::{
    after_insert, after_remove, lemma_texts_after_insert, lemma_texts_after_remove,
    lemma_texts_lookup, lemma_texts_with_bucket, lookup, texts, with_bucket, Buckets,
};
use crate::journal::{
    apply, apply_all, bucket_of, entries_of, lemma_apply_all_keeps_buckets,
    lemma_apply_all_with_bucket, lemma_entries_with_bucket, lemma_lookup_step, puts_within, Change,
};
use crate::names::{Bucket, Key};
use crate::text::same_text;
use crate::values::Value;

verus! {

/// A change kept back: a value to store under a bucket and key, or, with no value, the removal of
/// whatever is stored there.
struct Pending {
    bucket: Bucket,
    key: Key,
    value: Option<Value>,
}

impl Pending {
    /// The change, with names and value seen as text.
    spec fn view(&self) -> Change {
        match self.value {
            Some(v) => Change::Put(self.bucket@, self.key@, v@),
            None => Change::Take(self.bucket@, self.key@),
        }
    }
}

/// The changes a sequence of kept-back changes stands for, oldest first.
spec fn changes_of(pending: Seq<Pending>) -> Seq<Change> {
    pending.map_values(|p: Pending| p.view())
}

/// Applies kept-back changes to the buckets, oldest first.
fn apply_pending(store: &mut Buckets<Bucket, Key, Value>, pending: Vec<Pending>)
    ensures
        texts(final(store)@) == apply_all(texts(old(store)@), changes_of(pending@)),
{
    let ghost m0 = texts(store@);
    let ghost all = pending@;
    let ghost cs = changes_of(pending@);
    assert(cs.take(0) =~= Seq::<Change>::empty());
    for p in it: pending.into_iter()
        invariant
            it.seq() == all,
            cs == changes_of(all),
            texts(store@) == apply_all(m0, cs.take(it.index() as int)),
    {
        let ghost i = it.index() as int;
        let ghost before = store@;
        assert(cs.take(i + 1).drop_last() =~= cs.take(i));
        assert(cs.take(i + 1).last() == p.view());
        let Pending { bucket, key, value } = p;
        match value {
            Some(v) => {
                proof {
                    lemma_texts_after_insert(before, bucket@, key@, v);
                }
                store.insert(bucket, key, v);
            },
            None => {
                proof {
                    lemma_texts_after_remove(before, bucket@, key@);
                }
                store.remove(bucket.as_str(), key.as_str());
            },
        }
    }
    assert(cs.take(cs.len() as int) =~= cs);
}

/// Exclusive access to a store's buckets, with the changes made through it kept back.
pub struct Session<'a> {
    home: &'a mut Buckets<Bucket, Key, Value>,
    pending: Vec<Pending>,
}

impl<'a> Session<'a> {
    /// The borrow of the buckets the session was opened on.
    pub closed spec fn lent(&self) -> &'a mut Buckets<Bucket, Key, Value> {
        self.home
    }

    /// What the buckets hold now, each value seen as its text.
    pub open spec fn base(&self) -> Map<Seq<char>, Map<Seq<char>, Seq<char>>> {
        texts((*self.lent())@)
    }

    /// The changes kept back, oldest first.
    pub closed spec fn changes(&self) -> Seq<Change> {
        changes_of(self.pending@)
    }

    /// Every bucket a kept-back change stores a value in is already in the buckets.
    pub closed spec fn live(&self) -> bool {
        puts_within(self.changes(), self.base().dom())
    }

    /// What the buckets would hold if the session were committed now.
    pub open spec fn current(&self) -> Map<Seq<char>, Map<Seq<char>, Seq<char>>> {
        apply_all(self.base(), self.changes())
    }

    /// Every value the buckets hold while the session lasts, and keep if it is not committed.
    pub open spec fn origin(&self) -> Map<(Seq<char>, Seq<char>), Seq<char>> {
        entries_of(self.base())
    }

    /// Bucket for bucket, what the session would commit has the buckets the store has now.
    pub proof fn lemma_same_buckets(&self)
        requires
            self.live(),
        ensures
            self.current().dom() == self.base().dom(),
    {
        lemma_apply_all_keeps_buckets(self.base(), self.changes());
    }

    /// Opens a session on the buckets.
    pub fn open(store: &'a mut Buckets<Bucket, Key, Value>) -> (s: Self)
        ensures
            s.live(),
            *s.lent() == *old(store),
            *final(store) == *final(s.lent()),
            s.changes().len() == 0,
            s.current() == texts(old(store)@),
            s.origin() == entries_of(texts(old(store)@)),
    {
        let s = Session { home: store, pending: Vec::new() };
        assert(s.changes() =~= Seq::<Change>::empty());
        s
    }

    /// Looks up a value, as the kept-back changes would leave it.
    pub fn get(&self, bucket: &str, key: &str) -> (r: Option<&Value>)
        ensures
            match r {
                Some(v) => lookup(self.current(), bucket@, key@) == Some(v@),
                None => lookup(self.current(), bucket@, key@) is None,
            },
    {
        let ghost m = self.base();
        let ghost cs = self.changes();
        let mut i = self.pending.len();
        assert(cs.take(i as int) =~= cs);
        while i > 0
            invariant
                i <= self.pending@.len(),
                cs == self.changes(),
                m == self.base(),
                cs.len() == self.pending@.len(),
                lookup(self.current(), bucket@, key@) == lookup(
                    apply_all(m, cs.take(i as int)),
                    bucket@,
                    key@,
                ),
            decreases i,
        {
            let p = &self.pending[i - 1];
            proof {
                lemma_lookup_step(m, cs, i as int, bucket@, key@);
                assert(cs[i - 1] == p.view());
            }
            if same_text(p.bucket.as_str(), bucket) && same_text(p.key.as_str(), key) {
                return match &p.value {
                    Some(v) => Some(v),
                    None => None,
                };
            }
            i = i - 1;
        }
        assert(cs.take(0) =~= Seq::<Change>::empty());
        proof {
            lemma_texts_lookup((*self.home)@, bucket@, key@);
        }
        self.home.get(bucket, key)
    }

    /// Keeps back the storing of a value. Its bucket is added at once, empty, if it was missing.
    pub fn insert(&mut self, bucket: Bucket, key: Key, value: Value)
        requires
            old(self).live(),
        ensures
            final(self).live(),
            final(self).current() == after_insert(old(self).current(), bucket@, key@, value@),
            final(self).origin() == old(self).origin(),
            *final(final(self).lent()) == *final(old(self).lent()),
    {
        let ghost m = self.base();
        let ghost cs = self.changes();
        let ghost b = bucket@;
        let ghost c = Change::Put(bucket@, key@, value@);
        proof {
            lemma_texts_with_bucket((*self.home)@, b);
            lemma_apply_all_with_bucket(m, cs, b);
            lemma_entries_with_bucket(m, b);
        }
        self.home.open_bucket(bucket.clone());
        self.pending.push(Pending { bucket, key, value: Some(value) });
        proof {
            assert(self.changes() =~= cs.push(c));
            assert(self.changes().drop_last() =~= cs);
            let n = with_bucket(apply_all(m, cs), b);
            assert(apply(n, c) =~= after_insert(apply_all(m, cs), b, key@, value@)) by {
                assert(apply(n, c)[b] =~= after_insert(apply_all(m, cs), b, key@, value@)[b]);
            }
            assert forall|i: int|
                0 <= i < self.changes().len() && #[trigger] self.changes()[i] is Put implies self.base().dom().contains(
                bucket_of(self.changes()[i]),
            ) by {
                if i < cs.len() {
                    assert(self.changes()[i] == cs[i]);
                }
            }
        }
    }

    /// Keeps back the removal of a value. The bucket stays, even if the removal would leave it
    /// empty.
    pub fn remove(&mut self, bucket: Bucket, key: Key)
        requires
            old(self).live(),
        ensures
            final(self).live(),
            final(self).current() == after_remove(old(self).current(), bucket@, key@),
            final(self).origin() == old(self).origin(),
            *final(final(self).lent()) == *final(old(self).lent()),
    {
        let ghost cs = self.changes();
        let ghost c = Change::Take(bucket@, key@);
        self.pending.push(Pending { bucket, key, value: None });
        proof {
            assert(self.changes() =~= cs.push(c));
            assert(self.changes().drop_last() =~= cs);
            assert forall|i: int|
                0 <= i < self.changes().len() && #[trigger] self.changes()[i] is Put implies self.base().dom().contains(
                bucket_of(self.changes()[i]),
            ) by {
                assert(self.changes()[i] == cs[i]);
            }
        }
    }

    /// Applies every kept-back change to the buckets, oldest first.
    pub fn commit(self)
        ensures
            texts((*final(self.lent()))@) == self.current(),
    {
        let Session { home, pending } = self;
        apply_pending(home, pending);
    }

    /// Discards every kept-back change, leaving the buckets as they are.
    pub fn rollback(self)
        ensures
            *final(self.lent()) == *self.lent(),
    {
        let Session { home, pending } = self;
        let _discarded = pending;
        let _returned = home;
    }
}

/// A session that ends without being committed leaves the buckets exactly as they are: every value
/// the store held when the session was opened, and the buckets the session added, empty.
pub proof fn law_dropped_session_changes_nothing(s: Session)
    requires
        has_resolved(s),
    ensures
        *final(s.lent()) == *s.lent(),
{
}

} // verus!
