//! The store as it stands when borrowing is introduced: any number of shared borrows of it at once,
//! or one exclusive borrow.
use vstd::prelude::*;

use crate::table::Named;
use crate::buckets::{
    after_insert, after_remove, lemma_texts_after_insert, lemma_texts_after_remove,
    lemma_texts_lookup, lookup, texts, Buckets,
};

pub use crate::names::{Bucket, Key, NameError, MAX_NAME_LENGTH};
pub use crate::values::Value;

verus! {

/// An in-memory key-value store, partitioned into named buckets.
pub struct Store {
    buckets: Buckets<Bucket, Key, Value>,
}

impl View for Store {
    type V = Map<Seq<char>, Map<Seq<char>, Seq<char>>>;

    /// Every bucket, as a map from keys to the text of their values.
    closed spec fn view(&self) -> Self::V {
        texts(self.buckets@)
    }
}

impl Store {
    /// Every bucket, as a map from keys to the values themselves.
    pub closed spec fn values(&self) -> Map<Seq<char>, Map<Seq<char>, Value>> {
        self.buckets@
    }

    /// The store's view is the text of its values.
    pub proof fn lemma_view_is_text_of_values(&self)
        ensures
            self@ == texts(self.values()),
    {
    }

    /// Creates an empty store.
    pub fn new() -> (r: Self)
        ensures
            r@ == Map::<Seq<char>, Map<Seq<char>, Seq<char>>>::empty(),
    {
        let r = Store { buckets: Buckets::new() };
        assert(r@ =~= Map::<Seq<char>, Map<Seq<char>, Seq<char>>>::empty());
        r
    }

    /// Inserts a value, returning the value it replaced, if any.
    ///
    /// The store keeps its own copies of the bucket name and the key.
    pub fn insert(&mut self, bucket: &Bucket, key: &Key, value: Value) -> (r: Option<Value>)
        ensures
            final(self)@ == after_insert(old(self)@, bucket@, key@, value@),
            final(self).values() == after_insert(old(self).values(), bucket@, key@, value),
            r == lookup(old(self).values(), bucket@, key@),
            match r {
                Some(v) => lookup(old(self)@, bucket@, key@) == Some(v@),
                None => lookup(old(self)@, bucket@, key@) is None,
            },
    {
        proof {
            lemma_texts_after_insert(self.buckets@, bucket@, key@, value);
            lemma_texts_lookup(self.buckets@, bucket@, key@);
        }
        self.buckets.insert(bucket.clone(), key.clone(), value)
    }

    /// Looks up a value.
    pub fn get(&self, bucket: &Bucket, key: &Key) -> (r: Option<&Value>)
        ensures
            match r {
                Some(v) => {
                    &&& lookup(self.values(), bucket@, key@) == Some(*v)
                    &&& lookup(self@, bucket@, key@) == Some(v@)
                },
                None => lookup(self@, bucket@, key@) is None,
            },
    {
        proof {
            lemma_texts_lookup(self.buckets@, bucket@, key@);
        }
        self.buckets.get(bucket.as_str(), key.as_str())
    }

    /// Removes a value, returning it if it was there. Its bucket stays, even if left empty.
    pub fn remove(&mut self, bucket: &Bucket, key: &Key) -> (r: Option<Value>)
        ensures
            final(self)@ == after_remove(old(self)@, bucket@, key@),
            final(self).values() == after_remove(old(self).values(), bucket@, key@),
            r == lookup(old(self).values(), bucket@, key@),
            match r {
                Some(v) => lookup(old(self)@, bucket@, key@) == Some(v@),
                None => lookup(old(self)@, bucket@, key@) is None,
            },
    {
        proof {
            lemma_texts_after_remove(self.buckets@, bucket@, key@);
            lemma_texts_lookup(self.buckets@, bucket@, key@);
        }
        self.buckets.remove(bucket.as_str(), key.as_str())
    }

    /// Lists the buckets, including any that have been emptied, each once.
    pub fn buckets(&self) -> (r: std::vec::IntoIter<&Bucket>)
        ensures
            vstd::std_specs::vec::into_iter_elts(r).map_values(|b: &Bucket| b@).no_duplicates(),
            vstd::std_specs::vec::into_iter_elts(r).map_values(|b: &Bucket| b@).to_set()
                == self@.dom(),
    {
        broadcast use vstd::std_specs::vec::axiom_spec_into_iter;

        let names = self.buckets.bucket_names();
        proof {
            assert(self@.dom() =~= self.buckets@.dom());
            assert(names@.map_values(|b: &Bucket| b@) =~= names@.map_values(|b: &Bucket| b.name()));
        }
        let r = names.into_iter();
        assert(vstd::std_specs::vec::into_iter_elts(r) == names@);
        r
    }
}

} // verus!
