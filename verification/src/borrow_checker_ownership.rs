//! Transactions that take ownership of the names they keep, like the store they borrow.
//!
//! A transaction dropped while undecided is rolled back silently: it does not panic, and nothing
//! reports that the decision was forgotten; see [`law_dropped_transaction_changes_nothing`].
use vstd::prelude::*;

use crate::table::Named;
use crate::buckets::{
    after_insert, after_remove, decided_by, lemma_texts_after_insert, lemma_texts_after_remove,
    lemma_texts_lookup, lookup, texts, Buckets,
};
use crate::journal::entries_of;
use crate::session::Session;

pub use crate::names::{Bucket, Key, NameError, MAX_NAME_LENGTH};
pub use crate::values::Value;

verus! {

/// An in-memory key-value store, partitioned into named buckets.
pub struct Store {
    buckets: Buckets<Bucket, Key, Value>,
}

impl View for Store {
    type V = Map<Seq<char>, Map<Seq<char>, Seq<char>>>;

    /// Every bucket, as a map from keys to the text of their values.
    closed spec fn view(&self) -> Self::V {
        texts(self.buckets@)
    }
}

impl Store {
    /// Every bucket, as a map from keys to the values themselves.
    pub closed spec fn values(&self) -> Map<Seq<char>, Map<Seq<char>, Value>> {
        self.buckets@
    }

    /// The store's view is the text of its values.
    pub proof fn lemma_view_is_text_of_values(&self)
        ensures
            self@ == texts(self.values()),
    {
    }

    /// Creates an empty store.
    pub fn new() -> (r: Self)
        ensures
            r@ == Map::<Seq<char>, Map<Seq<char>, Seq<char>>>::empty(),
    {
        let r = Store { buckets: Buckets::new() };
        assert(r@ =~= Map::<Seq<char>, Map<Seq<char>, Seq<char>>>::empty());
        r
    }

    /// Runs `changes` in a transaction, committing it if they succeed and rolling it back if they do
    /// not.
    ///
    /// The closure is expected to work on the transaction it is handed, not to swap it for another.
    pub fn transaction<F, T, E>(&mut self, changes: F) -> (r: Result<T, E>)
        where
            F: FnOnce(&mut Transaction) -> Result<T, E>,
        requires
            forall|t: &mut Transaction| t.live() ==> call_requires(changes, (t,)),
            forall|t: &mut Transaction, out: Result<T, E>|
                call_ensures(changes, (t,), out) && t.live() ==> {
                    &&& final(t).live()
                    &&& final(t).origin() == t.origin()
                    &&& *final(final(t).lent()) == *final(t.lent())
                },
        ensures
            exists|t: &mut Transaction|
                {
                    &&& call_ensures(changes, (t,), r)
                    &&& t.current() == old(self)@
                    &&& r is Ok ==> final(self)@ == final(t).current()
                    &&& r is Err ==> final(self)@.dom() == final(t).current().dom()
                },
            r is Err ==> entries_of(final(self)@) == entries_of(old(self)@),
    {
        let mut txn = self.begin();
        let outcome = changes(&mut txn);
        match outcome {
            Ok(value) => {
                txn.commit();
                Ok(value)
            },
            Err(error) => {
                txn.rollback();
                Err(error)
            },
        }
    }

    /// Starts a transaction, borrowing the store until it finishes.
    pub fn begin(&mut self) -> (t: Transaction<'_>)
        ensures
            t.live(),
            t.current() == old(self)@,
            t.origin() == entries_of(old(self)@),
            final(self)@ == texts((*final(t.lent()))@),
    {
        Transaction { session: Session::open(&mut self.buckets) }
    }

    /// Inserts a value, returning the value it replaced, if any.
    pub fn insert(&mut self, bucket: Bucket, key: Key, value: Value) -> (r: Option<Value>)
        ensures
            final(self)@ == after_insert(old(self)@, bucket@, key@, value@),
            final(self).values() == after_insert(old(self).values(), bucket@, key@, value),
            r == lookup(old(self).values(), bucket@, key@),
            match r {
                Some(v) => lookup(old(self)@, bucket@, key@) == Some(v@),
                None => lookup(old(self)@, bucket@, key@) is None,
            },
    {
        proof {
            lemma_texts_after_insert(self.buckets@, bucket@, key@, value);
            lemma_texts_lookup(self.buckets@, bucket@, key@);
        }
        self.buckets.insert(bucket, key, value)
    }

    /// Looks up a value.
    pub fn get(&self, bucket: &Bucket, key: &Key) -> (r: Option<&Value>)
        ensures
            match r {
                Some(v) => {
                    &&& lookup(self.values(), bucket@, key@) == Some(*v)
                    &&& lookup(self@, bucket@, key@) == Some(v@)
                },
                None => lookup(self@, bucket@, key@) is None,
            },
    {
        proof {
            lemma_texts_lookup(self.buckets@, bucket@, key@);
        }
        self.buckets.get(bucket.as_str(), key.as_str())
    }

    /// Removes a value, returning it if it was there. Its bucket stays, even if left empty.
    pub fn remove(&mut self, bucket: &Bucket, key: &Key) -> (r: Option<Value>)
        ensures
            final(self)@ == after_remove(old(self)@, bucket@, key@),
            final(self).values() == after_remove(old(self).values(), bucket@, key@),
            r == lookup(old(self).values(), bucket@, key@),
            match r {
                Some(v) => lookup(old(self)@, bucket@, key@) == Some(v@),
                None => lookup(old(self)@, bucket@, key@) is None,
            },
    {
        proof {
            lemma_texts_after_remove(self.buckets@, bucket@, key@);
            lemma_texts_lookup(self.buckets@, bucket@, key@);
        }
        self.buckets.remove(bucket.as_str(), key.as_str())
    }

    /// Lists the buckets that hold at least one value, each once.
    pub fn buckets(&self) -> (r: std::vec::IntoIter<&Bucket>)
        ensures
            vstd::std_specs::vec::into_iter_elts(r).map_values(|b: &Bucket| b@).no_duplicates(),
            vstd::std_specs::vec::into_iter_elts(r).map_values(|b: &Bucket| b@).to_set()
                == self@.dom().filter(|n: Seq<char>| self@[n].len() > 0),
    {
        broadcast use vstd::std_specs::vec::axiom_spec_into_iter;

        let names = self.buckets.filled_bucket_names();
        proof {
            assert(names@.map_values(|b: &Bucket| b@) =~= names@.map_values(|b: &Bucket| b.name()));
            assert forall|n: Seq<char>| self.buckets@.dom().contains(n) implies #[trigger] self@[n].len()
                == self.buckets@[n].len() by {
                assert(self@[n].dom() =~= self.buckets@[n].dom());
            }
            assert(self@.dom().filter(|n: Seq<char>| self@[n].len() > 0) =~= self.buckets@.dom().filter(
                |n: Seq<char>| self.buckets@[n].len() > 0,
            ));
        }
        let r = names.into_iter();
        assert(vstd::std_specs::vec::into_iter_elts(r) == names@);
        r
    }

    /// Keeps only the values the predicate accepts, dropping any bucket left empty.
    pub fn retain<F>(&mut self, predicate: F)
        where
            F: FnMut(&Bucket, &Key, &Value) -> bool,
        requires
            forall|b: &Bucket, k: &Key, v: &Value| call_requires(predicate, (b, k, v)),
        ensures
            final(self)@ == texts(final(self).values()),
            final(self)@.dom().subset_of(old(self)@.dom()),
            forall|n: Seq<char>|
                #[trigger] final(self)@.dom().contains(n) ==> final(self)@[n].len() > 0,
            forall|n: Seq<char>|
                #[trigger] old(self).values().dom().contains(n) ==> decided_by(
                    predicate,
                    n,
                    old(self).values()[n],
                    if final(self).values().dom().contains(n) {
                        final(self).values()[n]
                    } else {
                        Map::empty()
                    },
                ),
    {
        self.buckets.retain(predicate);
        proof {
            assert forall|n: Seq<char>| #[trigger] self@.dom().contains(n) implies self@[n].len()
                > 0 by {
                assert(self@[n].dom() =~= self.buckets@[n].dom());
            }
        }
    }
}

/// A set of changes applied to a [`Store`] together.
///
/// Every change is seen through the transaction as soon as it is made, and reaches the store when
/// [`Transaction::commit`] is called; until then the transaction holds the store's only borrow, so
/// nothing else can look. [`Transaction::rollback`] takes every change back. A transaction that is
/// dropped while undecided takes its changes back too, silently: nothing reports that it was
/// forgotten. See [`law_dropped_transaction_changes_nothing`].
pub struct Transaction<'store> {
    session: Session<'store>,
}

impl<'store> Transaction<'store> {
    /// The transaction is in the state its every operation keeps: each bucket it stores a value in
    /// is in the store already.
    pub closed spec fn live(&self) -> bool {
        self.session.live()
    }

    /// The borrow of the store's buckets.
    pub closed spec fn lent(&self) -> &'store mut Buckets<Bucket, Key, Value> {
        self.session.lent()
    }

    /// What the store holds as seen through the transaction: what a commit would leave.
    pub closed spec fn current(&self) -> Map<Seq<char>, Map<Seq<char>, Seq<char>>> {
        self.session.current()
    }

    /// Every value the store held when the transaction started: what it holds until a commit.
    pub closed spec fn origin(&self) -> Map<(Seq<char>, Seq<char>), Seq<char>> {
        self.session.origin()
    }

    /// Inserts a value as part of this transaction.
    pub fn insert(&mut self, bucket: Bucket, key: Key, value: Value)
        requires
            old(self).live(),
        ensures
            final(self).live(),
            final(self).current() == after_insert(old(self).current(), bucket@, key@, value@),
            final(self).origin() == old(self).origin(),
            *final(final(self).lent()) == *final(old(self).lent()),
    {
        self.session.insert(bucket, key, value);
    }

    /// Removes a value as part of this transaction.
    pub fn remove(&mut self, bucket: Bucket, key: Key)
        requires
            old(self).live(),
        ensures
            final(self).live(),
            final(self).current() == after_remove(old(self).current(), bucket@, key@),
            final(self).origin() == old(self).origin(),
            *final(final(self).lent()) == *final(old(self).lent()),
    {
        self.session.remove(bucket, key);
    }

    /// Keeps every change made through this transaction.
    pub fn commit(self)
        ensures
            texts((*final(self.lent()))@) == self.current(),
    {
        self.session.commit();
    }

    /// Takes back every change made through this transaction.
    ///
    /// Every value the store held when the transaction started is back, and no other; a bucket the
    /// transaction created stays, empty. The store has the buckets the transaction saw last.
    pub fn rollback(self)
        requires
            self.live(),
        ensures
            *final(self.lent()) == *self.lent(),
            entries_of(texts((*final(self.lent()))@)) == self.origin(),
            texts((*final(self.lent()))@).dom() == self.current().dom(),
    {
        proof {
            self.session.lemma_same_buckets();
        }
        self.session.rollback();
    }
}

/// A transaction that is dropped without a commit leaves every value the store held when it
/// started, and no other; a bucket it created stays, empty.
pub proof fn law_dropped_transaction_changes_nothing(t: Transaction)
    requires
        t.live(),
        has_resolved(t),
    ensures
        *final(t.lent()) == *t.lent(),
        entries_of(texts((*final(t.lent()))@)) == t.origin(),
        texts((*final(t.lent()))@).dom() == t.current().dom(),
{
    crate::session::law_dropped_session_changes_nothing(t.session);
    t.session.lemma_same_buckets();
}

} // verus!
