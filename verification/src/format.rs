//! Pluggable export formats.
use vstd::prelude::*;

use crate::document::{
    csv_render, current_bucket, ini_render, push_csv_line, push_heading, push_line, Item,
};
use crate::names::{Bucket, Key};
use crate::values::Value;

verus! {

/// A rendering of a store, one bucket and one entry at a time.
///
/// Every method takes `&mut self` rather than `self`, and none of them are generic, so the trait is
/// usable as `dyn Format`.
///
/// A format is described by the items it has been fed since it last finished, and by the text it
/// spells any sequence of items as. Feeding it never changes how it spells things.
pub trait Format {
    /// The items fed since the format last finished.
    spec fn pending(&self) -> Seq<Item>;

    /// The text this format renders a sequence of items as.
    spec fn text_of(&self, items: Seq<Item>) -> Seq<char>;

    /// Starts a bucket.
    fn bucket(&mut self, bucket: &Bucket)
        ensures
            final(self).pending() == old(self).pending().push(Item::Heading(bucket@)),
            forall|items: Seq<Item>| #[trigger] final(self).text_of(items) == old(self).text_of(items),
    ;

    /// Writes one entry of the bucket that was started last.
    fn entry(&mut self, key: &Key, value: &Value)
        ensures
            final(self).pending() == old(self).pending().push(Item::Line(key@, value@)),
            forall|items: Seq<Item>| #[trigger] final(self).text_of(items) == old(self).text_of(items),
    ;

    /// Returns the finished document, leaving the formatter empty.
    fn finish(&mut self) -> (r: String)
        ensures
            r@ == old(self).text_of(old(self).pending()),
            final(self).pending() == Seq::<Item>::empty(),
            forall|items: Seq<Item>| #[trigger] final(self).text_of(items) == old(self).text_of(items),
    ;
}

/// Renders `[bucket]` headings and `key = value` lines.
pub struct Ini {
    output: String,
    items: Ghost<Seq<Item>>,
}

impl Ini {
    #[verifier::type_invariant]
    spec fn renders_items(&self) -> bool {
        self.output@ == ini_render(self.items@)
    }

    fn empty() -> (r: Self)
        ensures
            r.items@ == Seq::<Item>::empty(),
    {
        Ini { output: String::new(), items: Ghost(Seq::empty()) }
    }
}

impl Default for Ini {
    fn default() -> (r: Self)
        ensures
            r.pending() == Seq::<Item>::empty(),
    {
        Self::empty()
    }
}

impl Format for Ini {
    closed spec fn pending(&self) -> Seq<Item> {
        self.items@
    }

    open spec fn text_of(&self, items: Seq<Item>) -> Seq<char> {
        ini_render(items)
    }

    fn bucket(&mut self, bucket: &Bucket) {
        let mut this = Ini::empty();
        std::mem::swap(&mut this, self);
        proof {
            use_type_invariant(&this);
        }
        let Ini { mut output, items } = this;
        push_heading(&mut output, bucket.as_str());
        let ghost fed = items@.push(Item::Heading(bucket@));
        assert(fed.drop_last() =~= items@);
        *self = Ini { output, items: Ghost(fed) };
    }

    fn entry(&mut self, key: &Key, value: &Value) {
        let mut this = Ini::empty();
        std::mem::swap(&mut this, self);
        proof {
            use_type_invariant(&this);
        }
        let Ini { mut output, items } = this;
        push_line(&mut output, key.as_str(), value.as_str());
        let ghost fed = items@.push(Item::Line(key@, value@));
        assert(fed.drop_last() =~= items@);
        *self = Ini { output, items: Ghost(fed) };
    }

    fn finish(&mut self) -> (r: String) {
        let mut this = Ini::empty();
        std::mem::swap(&mut this, self);
        proof {
            use_type_invariant(&this);
        }
        let Ini { output, items } = this;
        output
    }
}

/// Renders one `bucket,key,value` line per entry.
pub struct Csv {
    output: String,
    bucket: String,
    items: Ghost<Seq<Item>>,
}

impl Csv {
    #[verifier::type_invariant]
    spec fn renders_items(&self) -> bool {
        &&& self.output@ == csv_render(self.items@)
        &&& self.bucket@ == current_bucket(self.items@)
    }

    fn empty() -> (r: Self)
        ensures
            r.items@ == Seq::<Item>::empty(),
    {
        let r = Csv { output: String::new(), bucket: String::new(), items: Ghost(Seq::empty()) };
        r
    }
}

impl Default for Csv {
    fn default() -> (r: Self)
        ensures
            r.pending() == Seq::<Item>::empty(),
    {
        Self::empty()
    }
}

impl Format for Csv {
    closed spec fn pending(&self) -> Seq<Item> {
        self.items@
    }

    open spec fn text_of(&self, items: Seq<Item>) -> Seq<char> {
        csv_render(items)
    }

    fn bucket(&mut self, bucket: &Bucket) {
        let mut this = Csv::empty();
        std::mem::swap(&mut this, self);
        proof {
            use_type_invariant(&this);
        }
        let Csv { output, bucket: _, items } = this;
        let ghost fed = items@.push(Item::Heading(bucket@));
        assert(fed.drop_last() =~= items@);
        *self = Csv { output, bucket: bucket.as_str().to_owned(), items: Ghost(fed) };
    }

    fn entry(&mut self, key: &Key, value: &Value) {
        let mut this = Csv::empty();
        std::mem::swap(&mut this, self);
        proof {
            use_type_invariant(&this);
        }
        let Csv { mut output, bucket, items } = this;
        push_csv_line(&mut output, bucket.as_str(), key.as_str(), value.as_str());
        let ghost fed = items@.push(Item::Line(key@, value@));
        assert(fed.drop_last() =~= items@);
        *self = Csv { output, bucket, items: Ghost(fed) };
    }

    fn finish(&mut self) -> (r: String) {
        let mut this = Csv::empty();
        std::mem::swap(&mut this, self);
        proof {
            use_type_invariant(&this);
        }
        let Csv { output, bucket: _, items } = this;
        output
    }
}

} // verus!
