//! The store exported through the typestate [`Writer`], with [`IteratorExt`] so that anything that
//! iterates, the store's buckets included, can be collected in sorted order.
//!
//! A read-write transaction dropped while undecided is rolled back silently: it does not panic, and
//! nothing reports that the decision was forgotten; see
//! [`crate::access::law_dropped_transaction_changes_nothing`].
use vstd::prelude::*;

use crate::table::Named;
use crate::buckets::{
    after_insert, after_remove, decided_by, lemma_texts_after_insert, lemma_texts_after_remove,
    lemma_texts_lookup, lookup, texts, Buckets,
};
use crate::journal::entries_of;
use crate::document::{ini_render, store_items};

pub use crate::names::{Bucket, Key, NameError, MAX_NAME_LENGTH};
pub use crate::values::Value;
pub use crate::iter_ext::IteratorExt;
pub use crate::access::{ReadOnly, ReadWrite, State, Transaction};
pub use crate::writer::{InBucket, Root, Section, Writer};

verus! {

/// An in-memory key-value store, partitioned into named buckets.
pub struct Store {
    buckets: Buckets<Bucket, Key, Value>,
}

impl View for Store {
    type V = Map<Seq<char>, Map<Seq<char>, Seq<char>>>;

    /// Every bucket, as a map from keys to the text of their values.
    closed spec fn view(&self) -> Self::V {
        texts(self.buckets@)
    }
}

impl Store {
    /// Every bucket, as a map from keys to the values themselves.
    pub closed spec fn values(&self) -> Map<Seq<char>, Map<Seq<char>, Value>> {
        self.buckets@
    }

    /// The store's view is the text of its values.
    pub proof fn lemma_view_is_text_of_values(&self)
        ensures
            self@ == texts(self.values()),
    {
    }

    /// Creates an empty store.
    pub fn new() -> (r: Self)
        ensures
            r@ == Map::<Seq<char>, Map<Seq<char>, Seq<char>>>::empty(),
    {
        let r = Store { buckets: Buckets::new() };
        assert(r@ =~= Map::<Seq<char>, Map<Seq<char>, Seq<char>>>::empty());
        r
    }

    /// Runs `changes` in a transaction, committing it if they succeed and rolling it back if they do
    /// not.
    ///
    /// The closure is expected to work on the transaction it is handed, not to swap it for another.
    pub fn transaction<F, T, E>(&mut self, changes: F) -> (r: Result<T, E>)
        where
            F: FnOnce(&mut Transaction<ReadWrite>) -> Result<T, E>,
        requires
            forall|t: &mut Transaction<ReadWrite>| t.live() ==> call_requires(changes, (t,)),
            forall|t: &mut Transaction<ReadWrite>, out: Result<T, E>|
                call_ensures(changes, (t,), out) && t.live() ==> {
                    &&& final(t).live()
                    &&& final(t).origin() == t.origin()
                    &&& *final(final(t).lent()) == *final(t.lent())
                },
        ensures
            exists|t: &mut Transaction<ReadWrite>|
                {
                    &&& call_ensures(changes, (t,), r)
                    &&& t.current() == old(self)@
                    &&& r is Ok ==> final(self)@ == final(t).current()
                    &&& r is Err ==> final(self)@.dom() == final(t).current().dom()
                },
            r is Err ==> entries_of(final(self)@) == entries_of(old(self)@),
    {
        let mut txn = self.begin();
        let outcome = changes(&mut txn);
        match outcome {
            Ok(value) => {
                txn.commit();
                Ok(value)
            },
            Err(error) => {
                txn.rollback();
                Err(error)
            },
        }
    }

    /// Starts a transaction, borrowing the store until it finishes.
    pub fn begin(&mut self) -> (t: Transaction<'_, ReadWrite>)
        ensures
            t.live(),
            t.current() == old(self)@,
            t.origin() == entries_of(old(self)@),
            final(self)@ == texts((*final(t.lent()))@),
    {
        Transaction::begin(&mut self.buckets)
    }

    /// Starts a transaction that is only allowed to read. The store stays as it is.
    pub fn begin_read(&mut self) -> (t: Transaction<'_, ReadOnly>)
        ensures
            t.current() == old(self)@,
            final(self)@ == old(self)@,
            final(self).values() == old(self).values(),
    {
        Transaction::begin_read(&self.buckets)
    }

    /// Inserts a value, returning the value it replaced, if any.
    pub fn insert(&mut self, bucket: Bucket, key: Key, value: Value) -> (r: Option<Value>)
        ensures
            final(self)@ == after_insert(old(self)@, bucket@, key@, value@),
            final(self).values() == after_insert(old(self).values(), bucket@, key@, value),
            r == lookup(old(self).values(), bucket@, key@),
            match r {
                Some(v) => lookup(old(self)@, bucket@, key@) == Some(v@),
                None => lookup(old(self)@, bucket@, key@) is None,
            },
    {
        proof {
            lemma_texts_after_insert(self.buckets@, bucket@, key@, value);
            lemma_texts_lookup(self.buckets@, bucket@, key@);
        }
        self.buckets.insert(bucket, key, value)
    }

    /// Looks up a value.
    pub fn get(&self, bucket: &Bucket, key: &Key) -> (r: Option<&Value>)
        ensures
            match r {
                Some(v) => {
                    &&& lookup(self.values(), bucket@, key@) == Some(*v)
                    &&& lookup(self@, bucket@, key@) == Some(v@)
                },
                None => lookup(self@, bucket@, key@) is None,
            },
    {
        proof {
            lemma_texts_lookup(self.buckets@, bucket@, key@);
        }
        self.buckets.get(bucket.as_str(), key.as_str())
    }

    /// Removes a value, returning it if it was there. Its bucket stays, even if left empty.
    pub fn remove(&mut self, bucket: &Bucket, key: &Key) -> (r: Option<Value>)
        ensures
            final(self)@ == after_remove(old(self)@, bucket@, key@),
            final(self).values() == after_remove(old(self).values(), bucket@, key@),
            r == lookup(old(self).values(), bucket@, key@),
            match r {
                Some(v) => lookup(old(self)@, bucket@, key@) == Some(v@),
                None => lookup(old(self)@, bucket@, key@) is None,
            },
    {
        proof {
            lemma_texts_after_remove(self.buckets@, bucket@, key@);
            lemma_texts_lookup(self.buckets@, bucket@, key@);
        }
        self.buckets.remove(bucket.as_str(), key.as_str())
    }

    /// Lists the buckets, including any that have been emptied, each once.
    pub fn buckets(&self) -> (r: std::vec::IntoIter<&Bucket>)
        ensures
            vstd::std_specs::vec::into_iter_elts(r).map_values(|b: &Bucket| b@).no_duplicates(),
            vstd::std_specs::vec::into_iter_elts(r).map_values(|b: &Bucket| b@).to_set()
                == self@.dom(),
    {
        broadcast use vstd::std_specs::vec::axiom_spec_into_iter;

        let names = self.buckets.bucket_names();
        proof {
            assert(self@.dom() =~= self.buckets@.dom());
            assert(names@.map_values(|b: &Bucket| b@) =~= names@.map_values(|b: &Bucket| b.name()));
        }
        let r = names.into_iter();
        assert(vstd::std_specs::vec::into_iter_elts(r) == names@);
        r
    }

    /// Keeps only the values the predicate accepts, dropping any bucket left empty.
    pub fn retain<F>(&mut self, predicate: F)
        where
            F: FnMut(&Bucket, &Key, &Value) -> bool,
        requires
            forall|b: &Bucket, k: &Key, v: &Value| call_requires(predicate, (b, k, v)),
        ensures
            final(self)@ == texts(final(self).values()),
            final(self)@.dom().subset_of(old(self)@.dom()),
            forall|n: Seq<char>|
                #[trigger] final(self)@.dom().contains(n) ==> final(self)@[n].len() > 0,
            forall|n: Seq<char>|
                #[trigger] old(self).values().dom().contains(n) ==> decided_by(
                    predicate,
                    n,
                    old(self).values()[n],
                    if final(self).values().dom().contains(n) {
                        final(self).values()[n]
                    } else {
                        Map::empty()
                    },
                ),
    {
        self.buckets.retain(predicate);
        proof {
            assert forall|n: Seq<char>| #[trigger] self@.dom().contains(n) implies self@[n].len()
                > 0 by {
                assert(self@[n].dom() =~= self.buckets@[n].dom());
            }
        }
    }

    /// Renders the whole store as text, with buckets and keys in sorted order.
    pub fn export(&self) -> (r: String)
        ensures
            r@ == ini_render(store_items(self@)),
    {
        crate::export::write_ini(&self.buckets)
    }
}

} // verus!
