//! A text writer whose type says where in the document it is.
//!
//! Entries belong to a bucket: a writer between buckets has no `entry`, and a writer inside a bucket
//! has no `finish`, so neither mistake compiles.
use vstd::prelude::*;
use std::marker::PhantomData;

use crate::document::{heading_text, line_text, push_heading, push_line};
use crate::names::{Bucket, Key};
use crate::sealed::Sealed;
use crate::values::Value;

verus! {

/// Where a [`Writer`] currently is in the document.
pub trait Section: Sealed {}

/// A writer between buckets.
pub struct Root;

impl Sealed for Root {}

impl Section for Root {}

/// A writer inside a bucket.
pub struct InBucket;

impl Sealed for InBucket {}

impl Section for InBucket {}

/// Renders a store as text, one bucket at a time.
pub struct Writer<S: Section> {
    output: String,
    _section: PhantomData<S>,
}

impl<S: Section> View for Writer<S> {
    type V = Seq<char>;

    /// The text written so far.
    closed spec fn view(&self) -> Seq<char> {
        self.output@
    }
}

impl Writer<Root> {
    /// Starts an empty document.
    pub fn new() -> (r: Self)
        ensures
            r@ == Seq::<char>::empty(),
    {
        let r = Writer { output: String::new(), _section: PhantomData };
        r
    }

    /// Opens a bucket, writing `[name]` on a line of its own.
    pub fn bucket(self, bucket: &Bucket) -> (r: Writer<InBucket>)
        ensures
            r@ == self@ + heading_text(bucket@),
    {
        let mut output = self.output;
        push_heading(&mut output, bucket.as_str());
        Writer { output, _section: PhantomData }
    }

    /// Finishes the document.
    pub fn finish(self) -> (r: String)
        ensures
            r@ == self@,
    {
        self.output
    }
}

impl Writer<InBucket> {
    /// Writes one entry into the open bucket, as `key = value` on a line of its own.
    pub fn entry(self, key: &Key, value: &Value) -> (r: Self)
        ensures
            r@ == self@ + line_text(key@, value@),
    {
        let mut output = self.output;
        push_line(&mut output, key.as_str(), value.as_str());
        Writer { output, _section: PhantomData }
    }

    /// Closes the open bucket.
    pub fn end(self) -> (r: Writer<Root>)
        ensures
            r@ == self@,
    {
        Writer { output: self.output, _section: PhantomData }
    }
}

} // verus!
