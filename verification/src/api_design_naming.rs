//! The plain-string store under the names a Rust programmer would guess: `new`, `insert`, `get`,
//! `remove`, `contains_bucket`, `len`, `is_empty` and `to_map`.
use vstd::prelude::*;
use std::collections::HashMap;
use vstd::std_specs::hash::obeys_key_model;

use crate::buckets::{
    after_insert, after_remove, entry_count, lemma_entry_count_texts, lemma_texts_after_insert,
    lemma_texts_after_remove, lemma_texts_lookup, lookup, texts, Buckets,
};
use crate::plain::{copies_store, copy_out};

verus! {

/// An in-memory key-value store, partitioned into named buckets.
pub struct Store {
    buckets: Buckets<String, String, String>,
}

impl View for Store {
    type V = Map<Seq<char>, Map<Seq<char>, Seq<char>>>;

    /// Every bucket, as a map from keys to values.
    closed spec fn view(&self) -> Self::V {
        texts(self.buckets@)
    }
}

impl Store {
    /// Creates an empty store.
    pub fn new() -> (r: Self)
        ensures
            r@ == Map::<Seq<char>, Map<Seq<char>, Seq<char>>>::empty(),
    {
        let r = Store { buckets: Buckets::new() };
        assert(r@ =~= Map::<Seq<char>, Map<Seq<char>, Seq<char>>>::empty());
        r
    }

    /// Inserts a value, returning the value it replaced, if any.
    pub fn insert(&mut self, bucket: &str, key: &str, value: &str) -> (r: Option<String>)
        ensures
            final(self)@ == after_insert(old(self)@, bucket@, key@, value@),
            match r {
                Some(v) => lookup(old(self)@, bucket@, key@) == Some(v@),
                None => lookup(old(self)@, bucket@, key@) is None,
            },
    {
        let value = value.to_owned();
        proof {
            lemma_texts_after_insert(self.buckets@, bucket@, key@, value);
            lemma_texts_lookup(self.buckets@, bucket@, key@);
        }
        self.buckets.insert(bucket.to_owned(), key.to_owned(), value)
    }

    /// Looks up a value.
    pub fn get(&self, bucket: &str, key: &str) -> (r: Option<&str>)
        ensures
            match r {
                Some(v) => lookup(self@, bucket@, key@) == Some(v@),
                None => lookup(self@, bucket@, key@) is None,
            },
    {
        proof {
            lemma_texts_lookup(self.buckets@, bucket@, key@);
        }
        match self.buckets.get(bucket, key) {
            Some(value) => Some(value.as_str()),
            None => None,
        }
    }

    /// Removes a value, returning it if it was there.
    pub fn remove(&mut self, bucket: &str, key: &str) -> (r: Option<String>)
        ensures
            final(self)@ == after_remove(old(self)@, bucket@, key@),
            match r {
                Some(v) => lookup(old(self)@, bucket@, key@) == Some(v@),
                None => lookup(old(self)@, bucket@, key@) is None,
            },
    {
        proof {
            lemma_texts_after_remove(self.buckets@, bucket@, key@);
            lemma_texts_lookup(self.buckets@, bucket@, key@);
        }
        self.buckets.remove(bucket, key)
    }

    /// Reports whether a bucket exists.
    pub fn contains_bucket(&self, bucket: &str) -> (r: bool)
        ensures
            r == self@.dom().contains(bucket@),
    {
        assert(self@.dom() =~= self.buckets@.dom());
        self.buckets.contains_bucket(bucket)
    }

    /// Returns the number of values across every bucket.
    pub fn len(&self) -> (r: usize)
        requires
            entry_count(self@) <= usize::MAX,
        ensures
            r == entry_count(self@),
    {
        self.buckets.bucket_count();
        proof {
            lemma_entry_count_texts(self.buckets@);
        }
        self.buckets.len()
    }

    /// Reports whether the store holds no values at all.
    pub fn is_empty(&self) -> (r: bool)
        ensures
            r == (entry_count(self@) == 0),
    {
        self.buckets.bucket_count();
        proof {
            lemma_entry_count_texts(self.buckets@);
        }
        self.buckets.holds_nothing()
    }

    /// Copies the whole store into a plain map.
    pub fn to_map(&self) -> (r: HashMap<String, HashMap<String, String>>)
        ensures
            obeys_key_model::<String>() ==> copies_store(r@, self@),
    {
        copy_out(&self.buckets)
    }
}

} // verus!
