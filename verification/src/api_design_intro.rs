//! The plain-string store before anyone thought about names: every method works, and every method
//! is called something a reasonable person would not guess.
use vstd::prelude::*;
use std::collections::HashMap;
use vstd::std_specs::hash::obeys_key_model;

use crate::buckets::{
    after_insert, after_remove, entry_count, lemma_entry_count_texts, lemma_texts_after_insert,
    lemma_texts_after_remove, lemma_texts_lookup, lookup, texts, Buckets,
};
use crate::plain::{copies_store, copy_out};

verus! {

/// An in-memory key-value store, partitioned into named buckets.
pub struct Store {
    buckets: Buckets<String, String, String>,
}

impl View for Store {
    type V = Map<Seq<char>, Map<Seq<char>, Seq<char>>>;

    /// Every bucket, as a map from keys to values.
    closed spec fn view(&self) -> Self::V {
        texts(self.buckets@)
    }
}

impl Store {
    /// Creates an empty store.
    pub fn make_store() -> (r: Self)
        ensures
            r@ == Map::<Seq<char>, Map<Seq<char>, Seq<char>>>::empty(),
    {
        let r = Store { buckets: Buckets::new() };
        assert(r@ =~= Map::<Seq<char>, Map<Seq<char>, Seq<char>>>::empty());
        r
    }

    /// Stores a value, handing back whatever was there before.
    pub fn set_value(&mut self, bucket: &str, key: &str, value: &str) -> (r: Option<String>)
        ensures
            final(self)@ == after_insert(old(self)@, bucket@, key@, value@),
            match r {
                Some(v) => lookup(old(self)@, bucket@, key@) == Some(v@),
                None => lookup(old(self)@, bucket@, key@) is None,
            },
    {
        let value = value.to_owned();
        proof {
            lemma_texts_after_insert(self.buckets@, bucket@, key@, value);
            lemma_texts_lookup(self.buckets@, bucket@, key@);
        }
        self.buckets.insert(bucket.to_owned(), key.to_owned(), value)
    }

    /// Looks up a value.
    pub fn get_value(&self, bucket: &str, key: &str) -> (r: Option<&str>)
        ensures
            match r {
                Some(v) => lookup(self@, bucket@, key@) == Some(v@),
                None => lookup(self@, bucket@, key@) is None,
            },
    {
        proof {
            lemma_texts_lookup(self.buckets@, bucket@, key@);
        }
        match self.buckets.get(bucket, key) {
            Some(value) => Some(value.as_str()),
            None => None,
        }
    }

    /// Drops a value from its bucket, handing it back.
    pub fn delete(&mut self, bucket: &str, key: &str) -> (r: Option<String>)
        ensures
            final(self)@ == after_remove(old(self)@, bucket@, key@),
            match r {
                Some(v) => lookup(old(self)@, bucket@, key@) == Some(v@),
                None => lookup(old(self)@, bucket@, key@) is None,
            },
    {
        proof {
            lemma_texts_after_remove(self.buckets@, bucket@, key@);
            lemma_texts_lookup(self.buckets@, bucket@, key@);
        }
        self.buckets.remove(bucket, key)
    }

    /// Reports whether a bucket exists.
    pub fn is_has_bucket(&self, bucket: &str) -> (r: bool)
        ensures
            r == self@.dom().contains(bucket@),
    {
        assert(self@.dom() =~= self.buckets@.dom());
        self.buckets.contains_bucket(bucket)
    }

    /// Counts the values across every bucket.
    pub fn get_count(&self) -> (r: usize)
        requires
            entry_count(self@) <= usize::MAX,
        ensures
            r == entry_count(self@),
    {
        self.buckets.bucket_count();
        proof {
            lemma_entry_count_texts(self.buckets@);
        }
        self.buckets.len()
    }

    /// Hands back the whole store as a plain map.
    pub fn as_map(&self) -> (r: HashMap<String, HashMap<String, String>>)
        ensures
            obeys_key_model::<String>() ==> copies_store(r@, self@),
    {
        copy_out(&self.buckets)
    }
}

} // verus!
