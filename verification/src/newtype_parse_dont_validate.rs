//! Bucket and key names with a parser that checks the naming rules. The wrapped `String` is still
//! public here, so a name can still be built around the parser.
//!
//! A name is valid when it is not empty, at most [`MAX_NAME_LENGTH`] bytes long, and made up
//! exclusively of ASCII alphanumerics and `-`, `_`, `.`, `/`.
use vstd::prelude::*;

use crate::names::{check_name, parse_name};

pub use crate::names::{NameError, MAX_NAME_LENGTH};

use crate::buckets::{
    after_insert, after_remove, lemma_texts_after_insert, lemma_texts_after_remove,
    lemma_texts_lookup, lookup, texts, Buckets,
};

verus! {

/// An in-memory key-value store, partitioned into named buckets.
pub struct Store {
    buckets: Buckets<String, String, String>,
}

impl View for Store {
    type V = Map<Seq<char>, Map<Seq<char>, Seq<char>>>;

    /// Every bucket, as a map from keys to values.
    closed spec fn view(&self) -> Self::V {
        texts(self.buckets@)
    }
}

impl Store {
    /// Creates an empty store.
    pub fn new() -> (r: Self)
        ensures
            r@ == Map::<Seq<char>, Map<Seq<char>, Seq<char>>>::empty(),
    {
        let r = Store { buckets: Buckets::new() };
        assert(r@ =~= Map::<Seq<char>, Map<Seq<char>, Seq<char>>>::empty());
        r
    }

    /// Inserts a value, returning the value it replaced, if any.
    pub fn insert(&mut self, bucket: &Bucket, key: &Key, value: &str) -> (r: Option<String>)
        ensures
            final(self)@ == after_insert(old(self)@, bucket@, key@, value@),
            match r {
                Some(v) => lookup(old(self)@, bucket@, key@) == Some(v@),
                None => lookup(old(self)@, bucket@, key@) is None,
            },
    {
        let value = value.to_owned();
        proof {
            lemma_texts_after_insert(self.buckets@, bucket@, key@, value);
            lemma_texts_lookup(self.buckets@, bucket@, key@);
        }
        self.buckets.insert(bucket.0.clone(), key.0.clone(), value)
    }

    /// Looks up a value.
    pub fn get(&self, bucket: &Bucket, key: &Key) -> (r: Option<&str>)
        ensures
            match r {
                Some(v) => lookup(self@, bucket@, key@) == Some(v@),
                None => lookup(self@, bucket@, key@) is None,
            },
    {
        proof {
            lemma_texts_lookup(self.buckets@, bucket@, key@);
        }
        match self.buckets.get(bucket.0.as_str(), key.0.as_str()) {
            Some(value) => Some(value.as_str()),
            None => None,
        }
    }

    /// Removes a value, returning it if it was there.
    pub fn remove(&mut self, bucket: &Bucket, key: &Key) -> (r: Option<String>)
        ensures
            final(self)@ == after_remove(old(self)@, bucket@, key@),
            match r {
                Some(v) => lookup(old(self)@, bucket@, key@) == Some(v@),
                None => lookup(old(self)@, bucket@, key@) is None,
            },
    {
        proof {
            lemma_texts_after_remove(self.buckets@, bucket@, key@);
            lemma_texts_lookup(self.buckets@, bucket@, key@);
        }
        self.buckets.remove(bucket.0.as_str(), key.0.as_str())
    }
}

/// The name of a bucket.
pub struct Bucket(pub String);

impl View for Bucket {
    type V = Seq<char>;

    open spec fn view(&self) -> Seq<char> {
        self.0@
    }
}

impl Bucket {
    /// Parses a bucket name, rejecting anything `minidb` cannot store.
    pub fn parse(raw: &str) -> (r: Result<Self, NameError>)
        ensures
            match check_name(raw@) {
                Ok(s) => r matches Ok(b) && b@ == s,
                Err(e) => r == Err::<Self, NameError>(e),
            },
    {
        match parse_name(raw) {
            Ok(name) => Ok(Bucket(name)),
            Err(e) => Err(e),
        }
    }
}

/// The name of a value within a bucket.
pub struct Key(pub String);

impl View for Key {
    type V = Seq<char>;

    open spec fn view(&self) -> Seq<char> {
        self.0@
    }
}

impl Key {
    /// Parses a key, rejecting anything `minidb` cannot store.
    pub fn parse(raw: &str) -> (r: Result<Self, NameError>)
        ensures
            match check_name(raw@) {
                Ok(s) => r matches Ok(k) && k@ == s,
                Err(e) => r == Err::<Self, NameError>(e),
            },
    {
        match parse_name(raw) {
            Ok(name) => Ok(Key(name)),
            Err(e) => Err(e),
        }
    }
}

} // verus!
