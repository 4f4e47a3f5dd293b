//! Transactions whose type says whether they may write.
//!
//! A transaction is born read-only or read-write and stays that way: the methods that write exist
//! only on `Transaction<'_, ReadWrite>`. [`State`] is sealed, so [`ReadOnly`] and [`ReadWrite`] are
//! the only states there are. A read-only transaction only borrows the store to read it; a read-write
//! one works through a [`Session`], which keeps its changes back until the commit.
//!
//! A read-write transaction dropped while undecided is rolled back silently: it does not panic, and
//! nothing reports that the decision was forgotten; see [`law_dropped_transaction_changes_nothing`].
use vstd::prelude::*;
use std::marker::PhantomData;

use crate::buckets::{after_insert, after_remove, lookup, texts, Buckets};
use crate::journal::entries_of;
use crate::names::{Bucket, Key};
use crate::sealed::Sealed;
use crate::session::Session;
use crate::values::Value;

verus! {

/// What a [`Transaction`] is allowed to do.
pub trait State: Sealed {}

/// A transaction that may only read.
pub struct ReadOnly;

impl Sealed for ReadOnly {}

impl State for ReadOnly {}

/// A transaction that may read and write.
pub struct ReadWrite;

impl Sealed for ReadWrite {}

impl State for ReadWrite {}

/// How a transaction holds the store.
enum Lease<'a> {
    Reading(&'a Buckets<Bucket, Key, Value>),
    Writing(Session<'a>),
}

/// A set of changes applied to a store together.
///
/// Every change is seen through the transaction as soon as it is made, and reaches the store when
/// [`Transaction::commit`] is called; until then the transaction holds the store's only borrow, so
/// nothing else can look. [`Transaction::rollback`] takes every change back. A read-write
/// transaction that is dropped while undecided takes its changes back too, silently.
pub struct Transaction<'store, S: State> {
    lease: Lease<'store>,
    _state: PhantomData<S>,
}

impl<'store, S: State> Transaction<'store, S> {
    /// The transaction may write, and is in the state its every operation keeps: each bucket it
    /// stores a value in is in the store already.
    pub closed spec fn live(&self) -> bool {
        match self.lease {
            Lease::Writing(s) => s.live(),
            Lease::Reading(_) => false,
        }
    }

    /// The exclusive borrow of the store's buckets, for a transaction that may write.
    pub closed spec fn lent(&self) -> &'store mut Buckets<Bucket, Key, Value> {
        match self.lease {
            Lease::Writing(s) => s.lent(),
            Lease::Reading(_) => vstd::pervasive::arbitrary(),
        }
    }

    /// What the store holds as seen through the transaction: what a commit would leave.
    pub closed spec fn current(&self) -> Map<Seq<char>, Map<Seq<char>, Seq<char>>> {
        match self.lease {
            Lease::Writing(s) => s.current(),
            Lease::Reading(b) => texts(b@),
        }
    }

    /// Every value the store held when the transaction started: what it holds until a commit.
    pub closed spec fn origin(&self) -> Map<(Seq<char>, Seq<char>), Seq<char>> {
        match self.lease {
            Lease::Writing(s) => s.origin(),
            Lease::Reading(b) => entries_of(texts(b@)),
        }
    }

    /// Looks up a value as part of this transaction.
    pub fn get(&self, bucket: &Bucket, key: &Key) -> (r: Option<&Value>)
        ensures
            match r {
                Some(v) => lookup(self.current(), bucket@, key@) == Some(v@),
                None => lookup(self.current(), bucket@, key@) is None,
            },
    {
        match &self.lease {
            Lease::Writing(s) => s.get(bucket.as_str(), key.as_str()),
            Lease::Reading(b) => {
                proof {
                    crate::buckets::lemma_texts_lookup(b@, bucket@, key@);
                }
                b.get(bucket.as_str(), key.as_str())
            },
        }
    }
}

impl<'store> Transaction<'store, ReadWrite> {
    /// Starts a transaction on a store's buckets.
    pub(crate) fn begin(store: &'store mut Buckets<Bucket, Key, Value>) -> (t: Self)
        ensures
            t.live(),
            t.current() == texts(old(store)@),
            t.origin() == entries_of(texts(old(store)@)),
            *final(store) == *final(t.lent()),
    {
        Transaction { lease: Lease::Writing(Session::open(store)), _state: PhantomData }
    }

    /// Inserts a value as part of this transaction.
    pub fn insert(&mut self, bucket: Bucket, key: Key, value: Value)
        requires
            old(self).live(),
        ensures
            final(self).live(),
            final(self).current() == after_insert(old(self).current(), bucket@, key@, value@),
            final(self).origin() == old(self).origin(),
            *final(final(self).lent()) == *final(old(self).lent()),
    {
        match &mut self.lease {
            Lease::Writing(s) => s.insert(bucket, key, value),
            Lease::Reading(_) => {},
        }
    }

    /// Removes a value as part of this transaction.
    pub fn remove(&mut self, bucket: Bucket, key: Key)
        requires
            old(self).live(),
        ensures
            final(self).live(),
            final(self).current() == after_remove(old(self).current(), bucket@, key@),
            final(self).origin() == old(self).origin(),
            *final(final(self).lent()) == *final(old(self).lent()),
    {
        match &mut self.lease {
            Lease::Writing(s) => s.remove(bucket, key),
            Lease::Reading(_) => {},
        }
    }

    /// Keeps every change made through this transaction.
    pub fn commit(self)
        requires
            self.live(),
        ensures
            texts((*final(self.lent()))@) == self.current(),
    {
        match self.lease {
            Lease::Writing(s) => s.commit(),
            Lease::Reading(_) => {},
        }
    }

    /// Takes back every change made through this transaction.
    ///
    /// Every value the store held when the transaction started is back, and no other; a bucket the
    /// transaction created stays, empty. The store has the buckets the transaction saw last.
    pub fn rollback(self)
        requires
            self.live(),
        ensures
            *final(self.lent()) == *self.lent(),
            entries_of(texts((*final(self.lent()))@)) == self.origin(),
            texts((*final(self.lent()))@).dom() == self.current().dom(),
    {
        match self.lease {
            Lease::Writing(s) => {
                proof {
                    s.lemma_same_buckets();
                }
                s.rollback()
            },
            Lease::Reading(_) => {},
        }
    }
}

impl<'store> Transaction<'store, ReadOnly> {
    /// Starts a transaction that only reads: it has nothing to commit or roll back.
    pub(crate) fn begin_read(store: &'store Buckets<Bucket, Key, Value>) -> (t: Self)
        ensures
            t.current() == texts(store@),
    {
        Transaction { lease: Lease::Reading(store), _state: PhantomData }
    }
}

/// A read-write transaction that is dropped without a commit leaves every value the store held when
/// it started, and no other; a bucket it created stays, empty.
pub proof fn law_dropped_transaction_changes_nothing(t: Transaction<ReadWrite>)
    requires
        t.live(),
        has_resolved(t),
    ensures
        *final(t.lent()) == *t.lent(),
        entries_of(texts((*final(t.lent()))@)) == t.origin(),
        texts((*final(t.lent()))@).dom() == t.current().dom(),
{
    match t.lease {
        Lease::Writing(s) => {
            crate::session::law_dropped_session_changes_nothing(s);
            s.lemma_same_buckets();
        },
        Lease::Reading(_) => {},
    }
}

} // verus!
