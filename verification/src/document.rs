//! What an export is made of, and how each format spells it.
//!
//! An export walks the store bucket by bucket in sorted order, and within a bucket key by key in
//! sorted order, producing a sequence of [`Item`]s. A format turns that sequence into text.
use vstd::prelude::*;
use vstd::string::StringExecFns;

use crate::text::sorted_listing;

verus! {

/// One step of an export: a bucket heading, or one entry of the bucket last opened.
pub enum Item {
    Heading(Seq<char>),
    Line(Seq<char>, Seq<char>),
}

/// `[bucket]` on a line of its own.
pub open spec fn heading_text(bucket: Seq<char>) -> Seq<char> {
    seq!['['] + bucket + seq![']', '\n']
}

/// `key = value` on a line of its own.
pub open spec fn line_text(key: Seq<char>, value: Seq<char>) -> Seq<char> {
    key + seq![' ', '=', ' '] + value + seq!['\n']
}

/// `bucket,key,value` on a line of its own.
pub open spec fn csv_line_text(bucket: Seq<char>, key: Seq<char>, value: Seq<char>) -> Seq<char> {
    bucket + seq![','] + key + seq![','] + value + seq!['\n']
}

/// How the INI format spells one item.
pub open spec fn ini_item(item: Item) -> Seq<char> {
    match item {
        Item::Heading(b) => heading_text(b),
        Item::Line(k, v) => line_text(k, v),
    }
}

/// The INI rendering: every item spelled out, in order.
pub open spec fn ini_render(items: Seq<Item>) -> Seq<char>
    decreases items.len(),
{
    if items.len() == 0 {
        Seq::empty()
    } else {
        ini_render(items.drop_last()) + ini_item(items.last())
    }
}

/// The bucket an entry written after `items` belongs to: the last heading, or nothing before the
/// first one.
pub open spec fn current_bucket(items: Seq<Item>) -> Seq<char>
    decreases items.len(),
{
    if items.len() == 0 {
        Seq::empty()
    } else {
        match items.last() {
            Item::Heading(b) => b,
            Item::Line(_, _) => current_bucket(items.drop_last()),
        }
    }
}

/// An entry belongs to the bucket of the last heading before it: whatever came before that heading,
/// and however many entries came after it, entries written next belong to that heading's bucket.
pub proof fn law_entries_belong_to_last_heading(items: Seq<Item>, h: int, bucket: Seq<char>)
    requires
        0 <= h < items.len(),
        items[h] == Item::Heading(bucket),
        forall|j: int| h < j < items.len() ==> #[trigger] items[j] is Line,
    ensures
        current_bucket(items) == bucket,
    decreases items.len(),
{
    if h < items.len() - 1 {
        let init = items.drop_last();
        assert(items[items.len() - 1] is Line);
        assert(init[h] == items[h]);
        assert forall|j: int| h < j < init.len() implies #[trigger] init[j] is Line by {
            assert(init[j] == items[j]);
        }
        law_entries_belong_to_last_heading(init, h, bucket);
    }
}

/// Writing an entry does not change which bucket later entries belong to, and writing a heading
/// makes its bucket theirs.
pub proof fn law_current_bucket_after_push(items: Seq<Item>, item: Item)
    ensures
        item is Line ==> current_bucket(items.push(item)) == current_bucket(items),
        item matches Item::Heading(b) ==> current_bucket(items.push(item)) == b,
{
    assert(items.push(item).drop_last() =~= items);
}

/// Entries written before any heading belong to no bucket: their bucket column is empty.
pub proof fn law_no_heading_no_bucket(items: Seq<Item>)
    requires
        forall|j: int| 0 <= j < items.len() ==> #[trigger] items[j] is Line,
    ensures
        current_bucket(items) == Seq::<char>::empty(),
    decreases items.len(),
{
    if items.len() > 0 {
        let init = items.drop_last();
        assert(items[items.len() - 1] is Line);
        assert forall|j: int| 0 <= j < init.len() implies #[trigger] init[j] is Line by {
            assert(init[j] == items[j]);
        }
        law_no_heading_no_bucket(init);
    }
}

/// The CSV rendering: one line per entry, naming the bucket it belongs to; headings print nothing.
pub open spec fn csv_render(items: Seq<Item>) -> Seq<char>
    decreases items.len(),
{
    if items.len() == 0 {
        Seq::empty()
    } else {
        match items.last() {
            Item::Heading(_) => csv_render(items.drop_last()),
            Item::Line(k, v) => csv_render(items.drop_last()) + csv_line_text(
                current_bucket(items.drop_last()),
                k,
                v,
            ),
        }
    }
}

/// A heading adds nothing to the CSV text, and an entry adds exactly one line: its bucket, a comma,
/// its key, a comma, its value and a newline, the bucket being that of the last heading before it.
pub proof fn law_csv_one_line_per_entry(items: Seq<Item>, item: Item)
    ensures
        item is Heading ==> csv_render(items.push(item)) == csv_render(items),
        item matches Item::Line(k, v) ==> csv_render(items.push(item)) == csv_render(items)
            + current_bucket(items) + seq![','] + k + seq![','] + v + seq!['\n'],
{
    assert(items.push(item).drop_last() =~= items);
    if let Item::Line(k, v) = item {
        assert(csv_render(items.push(item)) =~= csv_render(items) + current_bucket(items) + seq![',']
            + k + seq![','] + v + seq!['\n']);
    }
}

/// The entries of one bucket, in key order.
pub open spec fn bucket_items(values: Map<Seq<char>, Seq<char>>) -> Seq<Item> {
    sorted_listing(values.dom()).map_values(|k: Seq<char>| Item::Line(k, values[k]))
}

/// The buckets listed in `names`, in that order, each heading followed by its entries.
pub open spec fn items_of(
    m: Map<Seq<char>, Map<Seq<char>, Seq<char>>>,
    names: Seq<Seq<char>>,
) -> Seq<Item>
    decreases names.len(),
{
    if names.len() == 0 {
        Seq::empty()
    } else {
        items_of(m, names.drop_last()) + seq![Item::Heading(names.last())] + bucket_items(
            m[names.last()],
        )
    }
}

/// A whole store as an export walks it: buckets in order, and keys in order within each.
pub open spec fn store_items(m: Map<Seq<char>, Map<Seq<char>, Seq<char>>>) -> Seq<Item> {
    items_of(m, sorted_listing(m.dom()))
}

/// The INI rendering of items written one after another is the concatenation of their renderings.
pub proof fn lemma_ini_render_concat(a: Seq<Item>, b: Seq<Item>)
    ensures
        ini_render(a + b) == ini_render(a) + ini_render(b),
    decreases b.len(),
{
    if b.len() == 0 {
        assert(a + b =~= a);
        assert(ini_render(b) =~= Seq::<char>::empty());
        assert(ini_render(a) + ini_render(b) =~= ini_render(a));
    } else {
        assert((a + b).drop_last() =~= a + b.drop_last());
        assert((a + b).last() == b.last());
        lemma_ini_render_concat(a, b.drop_last());
        assert(ini_render(a + b) =~= ini_render(a) + ini_render(b));
    }
}

/// Appends `[bucket]` and a newline.
pub fn push_heading(out: &mut String, bucket: &str)
    ensures
        final(out)@ == old(out)@ + heading_text(bucket@),
{
    out.append("[");
    out.append(bucket);
    out.append("]\n");
    proof {
        reveal_strlit("[");
        reveal_strlit("]\n");
    }
    assert(final(out)@ =~= old(out)@ + heading_text(bucket@));
}

/// Appends `key = value` and a newline.
pub fn push_line(out: &mut String, key: &str, value: &str)
    ensures
        final(out)@ == old(out)@ + line_text(key@, value@),
{
    out.append(key);
    out.append(" = ");
    out.append(value);
    out.append("\n");
    proof {
        reveal_strlit(" = ");
        reveal_strlit("\n");
    }
    assert(final(out)@ =~= old(out)@ + line_text(key@, value@));
}

/// Appends `bucket,key,value` and a newline.
pub fn push_csv_line(out: &mut String, bucket: &str, key: &str, value: &str)
    ensures
        final(out)@ == old(out)@ + csv_line_text(bucket@, key@, value@),
{
    out.append(bucket);
    out.append(",");
    out.append(key);
    out.append(",");
    out.append(value);
    out.append("\n");
    proof {
        reveal_strlit(",");
        reveal_strlit("\n");
    }
    assert(final(out)@ =~= old(out)@ + csv_line_text(bucket@, key@, value@));
}

} // verus!
