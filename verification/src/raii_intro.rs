//! Transactions that hold the whole store: `begin` hands the store over, and `commit` or
//! `rollback` hands it back.
use vstd::prelude::*;

use crate::table::Named;
use crate::buckets::{
    after_insert, after_remove, decided_by, lemma_texts_after_insert, lemma_texts_after_remove,
    lemma_texts_lookup, lookup, texts, Buckets,
};
use crate::journal::{
    entries_of, lemma_record_insert, lemma_record_remove, replaced_within, replay, Journal,
};

pub use crate::names::{Bucket, Key, NameError, MAX_NAME_LENGTH};
pub use crate::values::Value;

verus! {

/// An in-memory key-value store, partitioned into named buckets.
pub struct Store {
    buckets: Buckets<Bucket, Key, Value>,
}

impl View for Store {
    type V = Map<Seq<char>, Map<Seq<char>, Seq<char>>>;

    /// Every bucket, as a map from keys to the text of their values.
    closed spec fn view(&self) -> Self::V {
        texts(self.buckets@)
    }
}

impl Store {
    /// Every bucket, as a map from keys to the values themselves.
    pub closed spec fn values(&self) -> Map<Seq<char>, Map<Seq<char>, Value>> {
        self.buckets@
    }

    /// The store's view is the text of its values.
    pub proof fn lemma_view_is_text_of_values(&self)
        ensures
            self@ == texts(self.values()),
    {
    }

    /// Creates an empty store.
    pub fn new() -> (r: Self)
        ensures
            r@ == Map::<Seq<char>, Map<Seq<char>, Seq<char>>>::empty(),
    {
        let r = Store { buckets: Buckets::new() };
        assert(r@ =~= Map::<Seq<char>, Map<Seq<char>, Seq<char>>>::empty());
        r
    }

    /// Hands the store to a transaction, which gives it back when it finishes.
    pub fn begin(self) -> (t: Transaction)
        ensures
            t.current() == self@,
            t.origin() == entries_of(self@),
    {
        let t = Transaction { store: self, undo: Journal::new() };
        t
    }

    /// Inserts a value, returning the value it replaced, if any.
    pub fn insert(&mut self, bucket: Bucket, key: Key, value: Value) -> (r: Option<Value>)
        ensures
            final(self)@ == after_insert(old(self)@, bucket@, key@, value@),
            final(self).values() == after_insert(old(self).values(), bucket@, key@, value),
            r == lookup(old(self).values(), bucket@, key@),
            match r {
                Some(v) => lookup(old(self)@, bucket@, key@) == Some(v@),
                None => lookup(old(self)@, bucket@, key@) is None,
            },
    {
        proof {
            lemma_texts_after_insert(self.buckets@, bucket@, key@, value);
            lemma_texts_lookup(self.buckets@, bucket@, key@);
        }
        self.buckets.insert(bucket, key, value)
    }

    /// Looks up a value.
    pub fn get(&self, bucket: &Bucket, key: &Key) -> (r: Option<&Value>)
        ensures
            match r {
                Some(v) => {
                    &&& lookup(self.values(), bucket@, key@) == Some(*v)
                    &&& lookup(self@, bucket@, key@) == Some(v@)
                },
                None => lookup(self@, bucket@, key@) is None,
            },
    {
        proof {
            lemma_texts_lookup(self.buckets@, bucket@, key@);
        }
        self.buckets.get(bucket.as_str(), key.as_str())
    }

    /// Removes a value, returning it if it was there. Its bucket stays, even if left empty.
    pub fn remove(&mut self, bucket: &Bucket, key: &Key) -> (r: Option<Value>)
        ensures
            final(self)@ == after_remove(old(self)@, bucket@, key@),
            final(self).values() == after_remove(old(self).values(), bucket@, key@),
            r == lookup(old(self).values(), bucket@, key@),
            match r {
                Some(v) => lookup(old(self)@, bucket@, key@) == Some(v@),
                None => lookup(old(self)@, bucket@, key@) is None,
            },
    {
        proof {
            lemma_texts_after_remove(self.buckets@, bucket@, key@);
            lemma_texts_lookup(self.buckets@, bucket@, key@);
        }
        self.buckets.remove(bucket.as_str(), key.as_str())
    }

    /// Lists the buckets, including any that have been emptied, each once.
    pub fn buckets(&self) -> (r: std::vec::IntoIter<&Bucket>)
        ensures
            vstd::std_specs::vec::into_iter_elts(r).map_values(|b: &Bucket| b@).no_duplicates(),
            vstd::std_specs::vec::into_iter_elts(r).map_values(|b: &Bucket| b@).to_set()
                == self@.dom(),
    {
        broadcast use vstd::std_specs::vec::axiom_spec_into_iter;

        let names = self.buckets.bucket_names();
        proof {
            assert(self@.dom() =~= self.buckets@.dom());
            assert(names@.map_values(|b: &Bucket| b@) =~= names@.map_values(|b: &Bucket| b.name()));
        }
        let r = names.into_iter();
        assert(vstd::std_specs::vec::into_iter_elts(r) == names@);
        r
    }

    /// Keeps only the values the predicate accepts, dropping any bucket left empty.
    pub fn retain<F>(&mut self, predicate: F)
        where
            F: FnMut(&Bucket, &Key, &Value) -> bool,
        requires
            forall|b: &Bucket, k: &Key, v: &Value| call_requires(predicate, (b, k, v)),
        ensures
            final(self)@ == texts(final(self).values()),
            final(self)@.dom().subset_of(old(self)@.dom()),
            forall|n: Seq<char>|
                #[trigger] final(self)@.dom().contains(n) ==> final(self)@[n].len() > 0,
            forall|n: Seq<char>|
                #[trigger] old(self).values().dom().contains(n) ==> decided_by(
                    predicate,
                    n,
                    old(self).values()[n],
                    if final(self).values().dom().contains(n) {
                        final(self).values()[n]
                    } else {
                        Map::empty()
                    },
                ),
    {
        self.buckets.retain(predicate);
        proof {
            assert forall|n: Seq<char>| #[trigger] self@.dom().contains(n) implies self@[n].len()
                > 0 by {
                assert(self@[n].dom() =~= self.buckets@[n].dom());
            }
        }
    }
}

/// A set of changes applied to a [`Store`] together.
///
/// Changes take effect immediately. Until [`Transaction::commit`] is called, every one of them can
/// still be taken back by [`Transaction::rollback`]. The store is inside the transaction until then.
pub struct Transaction {
    store: Store,
    undo: Journal,
}

impl Transaction {
    /// Every recorded change that replaced a value was made in a bucket the store has.
    #[verifier::type_invariant]
    spec fn recorded_in_place(&self) -> bool {
        replaced_within(self.undo@, self.store.buckets@.dom())
    }

    /// What the store inside the transaction holds now.
    pub closed spec fn current(&self) -> Map<Seq<char>, Map<Seq<char>, Seq<char>>> {
        self.store@
    }

    /// Every value the store held when the transaction started: what a rollback gives back.
    pub closed spec fn origin(&self) -> Map<(Seq<char>, Seq<char>), Seq<char>> {
        replay(entries_of(self.store@), self.undo@)
    }

    /// Inserts a value as part of this transaction.
    pub fn insert(&mut self, bucket: Bucket, key: Key, value: Value)
        ensures
            final(self).current() == after_insert(old(self).current(), bucket@, key@, value@),
            final(self).origin() == old(self).origin(),
    {
        proof {
            use_type_invariant(&*self);
        }
        let ghost m = self.store@;
        let ghost log = self.undo@;
        let ghost dom = self.store.buckets@.dom();
        // The store and its log are taken out together, so that the transaction left in their place
        // is an empty one while they change.
        let mut undo = Journal::new();
        let mut store = Store::new();
        std::mem::swap(&mut undo, &mut self.undo);
        std::mem::swap(&mut store, &mut self.store);
        let ghost b = bucket@;
        let ghost k = key@;
        let previous = store.insert(bucket.clone(), key.clone(), value);
        proof {
            lemma_record_insert(m, log, bucket@, key@, value@);
        }
        undo.record(bucket, key, previous);
        proof {
            assert(dom.subset_of(store.buckets@.dom()));
            assert forall|i: int| 0 <= i < undo@.len() && (#[trigger] undo@[i]).2 is Some implies store.buckets@.dom().contains(
                undo@[i].0,
            ) by {
                if i < log.len() {
                    assert(undo@[i] == log[i]);
                }
            }
        }
        std::mem::swap(&mut store, &mut self.store);
        std::mem::swap(&mut undo, &mut self.undo);
    }

    /// Removes a value as part of this transaction.
    pub fn remove(&mut self, bucket: Bucket, key: Key)
        ensures
            final(self).current() == after_remove(old(self).current(), bucket@, key@),
            final(self).origin() == old(self).origin(),
    {
        proof {
            use_type_invariant(&*self);
        }
        let ghost m = self.store@;
        let ghost log = self.undo@;
        let ghost dom = self.store.buckets@.dom();
        // The store and its log are taken out together, so that the transaction left in their place
        // is an empty one while they change.
        let mut undo = Journal::new();
        let mut store = Store::new();
        std::mem::swap(&mut undo, &mut self.undo);
        std::mem::swap(&mut store, &mut self.store);
        let ghost b = bucket@;
        let ghost k = key@;
        let previous = store.remove(&bucket, &key);
        proof {
            lemma_record_remove(m, log, bucket@, key@);
        }
        undo.record(bucket, key, previous);
        proof {
            assert(dom.subset_of(store.buckets@.dom()));
            assert forall|i: int| 0 <= i < undo@.len() && (#[trigger] undo@[i]).2 is Some implies store.buckets@.dom().contains(
                undo@[i].0,
            ) by {
                if i < log.len() {
                    assert(undo@[i] == log[i]);
                }
            }
        }
        std::mem::swap(&mut store, &mut self.store);
        std::mem::swap(&mut undo, &mut self.undo);
    }

    /// Looks up a value. The store is inside the transaction, so this is the only way to read it.
    pub fn get(&self, bucket: &Bucket, key: &Key) -> (r: Option<&Value>)
        ensures
            match r {
                Some(v) => lookup(self.current(), bucket@, key@) == Some(v@),
                None => lookup(self.current(), bucket@, key@) is None,
            },
    {
        self.store.get(bucket, key)
    }

    /// Keeps every change made through this transaction, and gives the store back.
    pub fn commit(self) -> (r: Store)
        ensures
            r@ == self.current(),
    {
        self.store
    }

    /// Takes back every change made through this transaction, and gives the store back.
    ///
    /// Every value the store held when the transaction started is back, and no other; a bucket the
    /// transaction created stays, empty, so the store has the buckets the transaction saw last.
    /// Whatever changes were made, in whatever order, this holds: see
    /// [`crate::journal::law_undo_restores`].
    pub fn rollback(self) -> (r: Store)
        ensures
            entries_of(r@) == self.origin(),
            r@.dom() == self.current().dom(),
    {
        proof {
            use_type_invariant(&self);
        }
        let Transaction { mut store, mut undo } = self;
        undo.undo_all(&mut store.buckets);
        store
    }
}

} // verus!
