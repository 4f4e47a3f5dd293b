//! Walking a store in sorted order, for export.
use vstd::prelude::*;

use crate::buckets::{texts, value_texts, Buckets};
use crate::document::{bucket_items, ini_render, items_of, store_items, Item};
use crate::format::Format;
use crate::names::{Bucket, Key};
use crate::table::Table;
use crate::text::{lemma_sorted_listing, sorted_listing};
use crate::values::Value;
use crate::writer::Writer;

verus! {

/// The positions `sorted_positions` lists for a bucket visit its keys in the order `bucket_items`
/// lists them, with their values.
pub proof fn lemma_bucket_order(section: Table<Key, Value>, order: Seq<usize>)
    requires
        section.wf(),
        forall|j: int| 0 <= j < order.len() ==> #[trigger] order[j] < section.names().len(),
        crate::text::is_sorted_names(order.map_values(|p: usize| section.names()[p as int])),
        order.map_values(|p: usize| section.names()[p as int]).to_set() == section@.dom(),
    ensures
        order.len() == bucket_items(value_texts(section@)).len(),
        forall|i: int|
            0 <= i < order.len() ==> #[trigger] bucket_items(value_texts(section@))[i]
                == Item::Line(section.names()[order[i] as int], section.values()[order[i] as int]@),
{
    let listed = order.map_values(|p: usize| section.names()[p as int]);
    lemma_sorted_listing(listed);
    let vals = value_texts(section@);
    assert(vals.dom() =~= section@.dom());
    section.lemma_names();
    assert forall|i: int| 0 <= i < order.len() implies #[trigger] bucket_items(vals)[i] == Item::Line(
        section.names()[order[i] as int],
        section.values()[order[i] as int]@,
    ) by {
        section.lemma_entry(order[i] as int);
        assert(listed[i] == section.names()[order[i] as int]);
    }
}

/// Feeds every bucket and every entry of `buckets` to `format`, in sorted order, then finishes it.
pub fn render<F: Format + ?Sized>(
    buckets: &Buckets<Bucket, Key, Value>,
    format: &mut F,
) -> (r: String)
    ensures
        r@ == old(format).text_of(old(format).pending() + store_items(texts(buckets@))),
        final(format).pending() == Seq::<Item>::empty(),
        forall|items: Seq<Item>| #[trigger] final(format).text_of(items) == old(format).text_of(items),
{
    let ghost m = texts(buckets@);
    let ghost start = format.pending();
    let order = buckets.sorted_positions();
    let ghost listing = sorted_listing(buckets@.dom());
    assert(m.dom() =~= buckets@.dom());
    let mut j: usize = 0;
    while j < order.len()
        invariant
            m == texts(buckets@),
            listing == sorted_listing(m.dom()),
            listing == order@.map_values(|p: usize| buckets.name_at(p as int)),
            forall|x: int| 0 <= x < order@.len() ==> #[trigger] order@[x] < buckets.positions(),
            j <= order@.len(),
            format.pending() == start + items_of(m, listing.take(j as int)),
            forall|items: Seq<Item>| #[trigger] format.text_of(items) == old(format).text_of(items),
        decreases order.len() - j,
    {
        let p = order[j];
        let bucket = buckets.bucket_at(p);
        let section = buckets.section_at(p);
        let ghost name = listing[j as int];
        assert(bucket@ == name);
        format.bucket(bucket);
        let keys = section.sorted_positions();
        proof {
            lemma_bucket_order(*section, keys@);
            assert(m[name] == value_texts(section@));
        }
        let ghost head = start + items_of(m, listing.take(j as int)) + seq![Item::Heading(name)];
        assert(format.pending() =~= head + bucket_items(m[name]).take(0));
        let mut i: usize = 0;
        while i < keys.len()
            invariant
                section.wf(),
                forall|x: int| 0 <= x < keys@.len() ==> #[trigger] keys@[x] < section.names().len(),
                keys@.len() == bucket_items(m[name]).len(),
                forall|x: int|
                    0 <= x < keys@.len() ==> #[trigger] bucket_items(m[name])[x] == Item::Line(
                        section.names()[keys@[x] as int],
                        section.values()[keys@[x] as int]@,
                    ),
                i <= keys@.len(),
                format.pending() == head + bucket_items(m[name]).take(i as int),
                forall|items: Seq<Item>| #[trigger] format.text_of(items) == old(format).text_of(items),
            decreases keys.len() - i,
        {
            let q = keys[i];
            let key = section.key_at(q);
            let value = section.value_at(q);
            format.entry(key, value);
            assert(bucket_items(m[name])[i as int] == Item::Line(key@, value@));
            assert(bucket_items(m[name]).take(i + 1) =~= bucket_items(m[name]).take(i as int).push(
                Item::Line(key@, value@),
            ));
            i = i + 1;
        }
        proof {
            assert(bucket_items(m[name]).take(i as int) =~= bucket_items(m[name]));
            assert(listing.take(j + 1).drop_last() =~= listing.take(j as int));
            assert(listing.take(j + 1).last() == name);
            assert(format.pending() =~= start + items_of(m, listing.take(j + 1)));
        }
        j = j + 1;
    }
    assert(listing.take(j as int) =~= listing);
    format.finish()
}

/// Writes every bucket and every entry of `buckets` through a [`Writer`], in sorted order.
pub fn write_ini(buckets: &Buckets<Bucket, Key, Value>) -> (r: String)
    ensures
        r@ == ini_render(store_items(texts(buckets@))),
{
    let ghost m = texts(buckets@);
    let order = buckets.sorted_positions();
    let ghost listing = sorted_listing(buckets@.dom());
    assert(m.dom() =~= buckets@.dom());
    let mut writer = Writer::new();
    let mut j: usize = 0;
    while j < order.len()
        invariant
            m == texts(buckets@),
            listing == sorted_listing(m.dom()),
            listing == order@.map_values(|p: usize| buckets.name_at(p as int)),
            forall|x: int| 0 <= x < order@.len() ==> #[trigger] order@[x] < buckets.positions(),
            j <= order@.len(),
            writer@ == ini_render(items_of(m, listing.take(j as int))),
        decreases order.len() - j,
    {
        let p = order[j];
        let bucket = buckets.bucket_at(p);
        let section = buckets.section_at(p);
        let ghost name = listing[j as int];
        assert(bucket@ == name);
        let ghost head = items_of(m, listing.take(j as int)).push(Item::Heading(name));
        let mut open = writer.bucket(bucket);
        assert(head.drop_last() =~= items_of(m, listing.take(j as int)));
        let keys = section.sorted_positions();
        proof {
            lemma_bucket_order(*section, keys@);
            assert(m[name] == value_texts(section@));
        }
        assert(head + bucket_items(m[name]).take(0) =~= head);
        let mut i: usize = 0;
        while i < keys.len()
            invariant
                section.wf(),
                forall|x: int| 0 <= x < keys@.len() ==> #[trigger] keys@[x] < section.names().len(),
                keys@.len() == bucket_items(m[name]).len(),
                forall|x: int|
                    0 <= x < keys@.len() ==> #[trigger] bucket_items(m[name])[x] == Item::Line(
                        section.names()[keys@[x] as int],
                        section.values()[keys@[x] as int]@,
                    ),
                i <= keys@.len(),
                open@ == ini_render(head + bucket_items(m[name]).take(i as int)),
            decreases keys.len() - i,
        {
            let q = keys[i];
            let key = section.key_at(q);
            let value = section.value_at(q);
            let ghost before = head + bucket_items(m[name]).take(i as int);
            open = open.entry(key, value);
            proof {
                assert(bucket_items(m[name])[i as int] == Item::Line(key@, value@));
                let after = head + bucket_items(m[name]).take(i + 1);
                assert(after =~= before.push(Item::Line(key@, value@)));
                assert(after.drop_last() =~= before);
            }
            i = i + 1;
        }
        writer = open.end();
        proof {
            assert(bucket_items(m[name]).take(i as int) =~= bucket_items(m[name]));
            assert(listing.take(j + 1).drop_last() =~= listing.take(j as int));
            assert(listing.take(j + 1).last() == name);
            assert(items_of(m, listing.take(j + 1)) =~= head + bucket_items(m[name]));
        }
        j = j + 1;
    }
    assert(listing.take(j as int) =~= listing);
    writer.finish()
}

} // verus!
