//! The storage behind every `minidb` store: values partitioned into named buckets.
//!
//! A bucket comes into being the first time a value is inserted into it and stays, possibly empty,
//! until a `retain` leaves it with nothing.
use vstd::prelude::*;

use crate::table::{Named, Table};
use crate::text::sorted_listing;

verus! {

/// Values under keys, in named buckets.
pub struct Buckets<B: Named, K: Named, V> {
    table: Table<B, Table<K, V>>,
}

/// The number of values across every bucket of `m`, counting the buckets in the order `names` lists
/// them.
pub open spec fn count_in<V>(m: Map<Seq<char>, Map<Seq<char>, V>>, names: Seq<Seq<char>>) -> nat
    decreases names.len(),
{
    if names.len() == 0 {
        0
    } else {
        count_in(m, names.drop_last()) + m[names.last()].len()
    }
}

/// The number of values across every bucket.
pub open spec fn entry_count<V>(m: Map<Seq<char>, Map<Seq<char>, V>>) -> nat {
    count_in(m, sorted_listing(m.dom()))
}

/// What a bucket holds once a value is inserted into it.
pub open spec fn bucket_after_insert<V>(
    m: Map<Seq<char>, Map<Seq<char>, V>>,
    bucket: Seq<char>,
    key: Seq<char>,
    value: V,
) -> Map<Seq<char>, V> {
    if m.dom().contains(bucket) {
        m[bucket].insert(key, value)
    } else {
        Map::empty().insert(key, value)
    }
}

/// The buckets after inserting a value: the bucket is created if it was missing.
pub open spec fn after_insert<V>(
    m: Map<Seq<char>, Map<Seq<char>, V>>,
    bucket: Seq<char>,
    key: Seq<char>,
    value: V,
) -> Map<Seq<char>, Map<Seq<char>, V>> {
    m.insert(bucket, bucket_after_insert(m, bucket, key, value))
}

/// The buckets after removing a value: the bucket stays, even when it is left empty.
pub open spec fn after_remove<V>(
    m: Map<Seq<char>, Map<Seq<char>, V>>,
    bucket: Seq<char>,
    key: Seq<char>,
) -> Map<Seq<char>, Map<Seq<char>, V>> {
    if m.dom().contains(bucket) {
        m.insert(bucket, m[bucket].remove(key))
    } else {
        m
    }
}

/// The buckets with `bucket` among them: an empty one is added if it was missing.
pub open spec fn with_bucket<V>(m: Map<Seq<char>, Map<Seq<char>, V>>, bucket: Seq<char>) -> Map<
    Seq<char>,
    Map<Seq<char>, V>,
> {
    if m.dom().contains(bucket) {
        m
    } else {
        m.insert(bucket, Map::empty())
    }
}

/// The value stored under `key` in `bucket`, if any.
pub open spec fn lookup<V>(
    m: Map<Seq<char>, Map<Seq<char>, V>>,
    bucket: Seq<char>,
    key: Seq<char>,
) -> Option<V> {
    if m.dom().contains(bucket) && m[bucket].dom().contains(key) {
        Some(m[bucket][key])
    } else {
        None
    }
}

/// `after` is what `retain` keeps of the bucket `bucket`, which held `before`: every value it keeps
/// was accepted by the predicate, and every value it drops was rejected.
pub open spec fn decided_by<B: Named, K: Named, V, F: FnMut(&B, &K, &V) -> bool>(
    predicate: F,
    bucket: Seq<char>,
    before: Map<Seq<char>, V>,
    after: Map<Seq<char>, V>,
) -> bool {
    &&& after.submap_of(before)
    &&& forall|k: Seq<char>| #[trigger] before.dom().contains(k) ==> {
        exists|b: &B, key: &K, keep: bool|
            b.name() == bucket && key.name() == k && #[trigger] call_ensures(
                predicate,
                (b, key, &before[k]),
                keep,
            ) && keep == after.dom().contains(k)
    }
}

/// A value reads back as the one last inserted under its bucket and key, and inserting it changes
/// no other value. The bucket exists afterwards, and no other bucket appears or disappears.
pub proof fn law_get_after_insert<V>(
    m: Map<Seq<char>, Map<Seq<char>, V>>,
    bucket: Seq<char>,
    key: Seq<char>,
    value: V,
    other_bucket: Seq<char>,
    other_key: Seq<char>,
)
    ensures
        lookup(after_insert(m, bucket, key, value), bucket, key) == Some(value),
        (other_bucket, other_key) != (bucket, key) ==> lookup(
            after_insert(m, bucket, key, value),
            other_bucket,
            other_key,
        ) == lookup(m, other_bucket, other_key),
        after_insert(m, bucket, key, value).dom() == m.dom().insert(bucket),
{
    assert(after_insert(m, bucket, key, value).dom() =~= m.dom().insert(bucket));
}

/// A removed value no longer reads back, and removing it changes no other value. Every bucket stays,
/// even one left empty.
pub proof fn law_get_after_remove<V>(
    m: Map<Seq<char>, Map<Seq<char>, V>>,
    bucket: Seq<char>,
    key: Seq<char>,
    other_bucket: Seq<char>,
    other_key: Seq<char>,
)
    ensures
        lookup(after_remove(m, bucket, key), bucket, key) is None,
        (other_bucket, other_key) != (bucket, key) ==> lookup(
            after_remove(m, bucket, key),
            other_bucket,
            other_key,
        ) == lookup(m, other_bucket, other_key),
        after_remove(m, bucket, key).dom() == m.dom(),
{
    assert(after_remove(m, bucket, key).dom() =~= m.dom());
}

/// Inserting a value and removing it again leaves every value as it was; only the bucket the insert
/// may have created stays behind.
pub proof fn law_remove_undoes_insert<V>(
    m: Map<Seq<char>, Map<Seq<char>, V>>,
    bucket: Seq<char>,
    key: Seq<char>,
    value: V,
    other_bucket: Seq<char>,
    other_key: Seq<char>,
)
    requires
        lookup(m, bucket, key) is None,
    ensures
        lookup(after_remove(after_insert(m, bucket, key, value), bucket, key), other_bucket, other_key)
            == lookup(m, other_bucket, other_key),
{
}

/// A predicate that accepts every value keeps every value of a bucket.
pub proof fn law_retain_keeping_everything<B: Named, K: Named, V, F: FnMut(&B, &K, &V) -> bool>(
    predicate: F,
    bucket: Seq<char>,
    before: Map<Seq<char>, V>,
    after: Map<Seq<char>, V>,
)
    requires
        decided_by(predicate, bucket, before, after),
        forall|b: &B, k: &K, v: &V, keep: bool| call_ensures(predicate, (b, k, v), keep) ==> keep,
    ensures
        after == before,
{
    assert forall|k: Seq<char>| #[trigger] before.dom().contains(k) implies after.dom().contains(k) by {
        let (b, key, keep) = choose|b: &B, key: &K, keep: bool|
            b.name() == bucket && key.name() == k && #[trigger] call_ensures(
                predicate,
                (b, key, &before[k]),
                keep,
            ) && keep == after.dom().contains(k);
    }
    assert(after =~= before);
}

/// One bucket's values, each seen as its text.
pub open spec fn value_texts<V: View<V = Seq<char>>>(s: Map<Seq<char>, V>) -> Map<
    Seq<char>,
    Seq<char>,
> {
    s.map_values(|v: V| v@)
}

/// Buckets of values, each value seen as its text.
pub open spec fn texts<V: View<V = Seq<char>>>(m: Map<Seq<char>, Map<Seq<char>, V>>) -> Map<
    Seq<char>,
    Map<Seq<char>, Seq<char>>,
> {
    m.map_values(|s: Map<Seq<char>, V>| value_texts(s))
}

/// Seen as text, inserting a value inserts its text.
pub proof fn lemma_texts_after_insert<V: View<V = Seq<char>>>(
    m: Map<Seq<char>, Map<Seq<char>, V>>,
    b: Seq<char>,
    k: Seq<char>,
    v: V,
)
    ensures
        texts(after_insert(m, b, k, v)) == after_insert(texts(m), b, k, v@),
{
    assert(texts(after_insert(m, b, k, v)) =~= after_insert(texts(m), b, k, v@)) by {
        assert(texts(after_insert(m, b, k, v))[b] =~= after_insert(texts(m), b, k, v@)[b]);
    }
}

/// Seen as text, removing a value removes its text.
pub proof fn lemma_texts_after_remove<V: View<V = Seq<char>>>(
    m: Map<Seq<char>, Map<Seq<char>, V>>,
    b: Seq<char>,
    k: Seq<char>,
)
    ensures
        texts(after_remove(m, b, k)) == after_remove(texts(m), b, k),
{
    if m.dom().contains(b) {
        assert(texts(after_remove(m, b, k))[b] =~= after_remove(texts(m), b, k)[b]);
    }
    assert(texts(after_remove(m, b, k)) =~= after_remove(texts(m), b, k));
}

/// Seen as text, looking a value up finds its text.
pub proof fn lemma_texts_lookup<V: View<V = Seq<char>>>(
    m: Map<Seq<char>, Map<Seq<char>, V>>,
    b: Seq<char>,
    k: Seq<char>,
)
    ensures
        lookup(texts(m), b, k) == match lookup(m, b, k) {
            Some(v) => Some(v@),
            None => None::<Seq<char>>,
        },
{
}

/// Seen as text, adding an empty bucket adds an empty bucket.
pub proof fn lemma_texts_with_bucket<V: View<V = Seq<char>>>(
    m: Map<Seq<char>, Map<Seq<char>, V>>,
    b: Seq<char>,
)
    ensures
        texts(with_bucket(m, b)) == with_bucket(texts(m), b),
{
    if !m.dom().contains(b) {
        assert(texts(with_bucket(m, b))[b] =~= Map::<Seq<char>, Seq<char>>::empty());
    }
    assert(texts(with_bucket(m, b)) =~= with_bucket(texts(m), b));
}

/// The count over a listing is zero exactly when every bucket listed is empty.
pub proof fn lemma_count_zero<V>(m: Map<Seq<char>, Map<Seq<char>, V>>, names: Seq<Seq<char>>)
    ensures
        (count_in(m, names) == 0) == (forall|i: int|
            0 <= i < names.len() ==> #[trigger] m[names[i]].len() == 0),
    decreases names.len(),
{
    if names.len() > 0 {
        lemma_count_zero(m, names.drop_last());
        assert forall|i: int| 0 <= i < names.len() - 1 implies #[trigger] names.drop_last()[i]
            == names[i] by {}
        if count_in(m, names) == 0 {
            assert forall|i: int| 0 <= i < names.len() implies #[trigger] m[names[i]].len() == 0 by {
                if i < names.len() - 1 {
                    assert(m[names.drop_last()[i]].len() == 0);
                }
            }
        }
        if forall|i: int| 0 <= i < names.len() ==> #[trigger] m[names[i]].len() == 0 {
            assert forall|i: int| 0 <= i < names.drop_last().len() implies #[trigger] m[
                names.drop_last()[i]
            ].len() == 0 by {
                assert(m[names[i]].len() == 0);
            }
            assert(m[names[names.len() - 1]].len() == 0);
        }
    }
}

/// A store holds no value at all exactly when every one of its buckets is empty.
pub proof fn law_no_values_means_empty_buckets<V>(m: Map<Seq<char>, Map<Seq<char>, V>>)
    requires
        m.dom().finite(),
    ensures
        (entry_count(m) == 0) == (forall|b: Seq<char>| #[trigger] m.dom().contains(b) ==> m[b].len()
            == 0),
{
    crate::text::lemma_sorted_listing_exists(m.dom());
    let l = sorted_listing(m.dom());
    lemma_count_zero(m, l);
    if entry_count(m) == 0 {
        assert forall|b: Seq<char>| #[trigger] m.dom().contains(b) implies m[b].len() == 0 by {
            assert(l.to_set().contains(b));
            let i = choose|i: int| 0 <= i < l.len() && l[i] == b;
            assert(m[l[i]].len() == 0);
        }
    }
    if forall|b: Seq<char>| #[trigger] m.dom().contains(b) ==> m[b].len() == 0 {
        assert forall|i: int| 0 <= i < l.len() implies #[trigger] m[l[i]].len() == 0 by {
            assert(l.to_set().contains(l[i]));
        }
    }
}

/// Taking one bucket out of a listing takes its values out of the count.
pub proof fn lemma_count_remove<V>(m: Map<Seq<char>, Map<Seq<char>, V>>, names: Seq<Seq<char>>, j: int)
    requires
        0 <= j < names.len(),
    ensures
        count_in(m, names) == count_in(m, names.remove(j)) + m[names[j]].len(),
    decreases names.len(),
{
    if j == names.len() - 1 {
        assert(names.remove(j) =~= names.drop_last());
    } else {
        lemma_count_remove(m, names.drop_last(), j);
        assert(names.remove(j).drop_last() =~= names.drop_last().remove(j));
        assert(names.remove(j).last() == names.last());
    }
}

/// Counting over listings of the same buckets, none named twice, gives the same total.
pub proof fn lemma_count_listing_order<V>(m: Map<Seq<char>, Map<Seq<char>, V>>, a: Seq<Seq<char>>, b: Seq<Seq<char>>)
    requires
        a.no_duplicates(),
        b.no_duplicates(),
        a.to_set() == b.to_set(),
    ensures
        count_in(m, a) == count_in(m, b),
    decreases a.len(),
{
    if a.len() == 0 {
        if b.len() > 0 {
            assert(b.to_set().contains(b[0]));
        }
    } else {
        let x = a.last();
        assert(a.to_set().contains(x));
        assert(b.to_set().contains(x));
        let j = choose|j: int| 0 <= j < b.len() && b[j] == x;
        lemma_count_remove(m, b, j);
        let a1 = a.drop_last();
        let b1 = b.remove(j);
        assert forall|y: Seq<char>| #[trigger] a1.to_set().contains(y) == b1.to_set().contains(y) by {
            if a1.to_set().contains(y) {
                let i = choose|i: int| 0 <= i < a1.len() && a1[i] == y;
                assert(a[i] == y && i != a.len() - 1);
                assert(b.to_set().contains(y));
                let k = choose|k: int| 0 <= k < b.len() && b[k] == y;
                assert(k != j);
                if k < j {
                    assert(b1[k] == y);
                } else {
                    assert(b1[k - 1] == y);
                }
            }
            if b1.to_set().contains(y) {
                let k = choose|k: int| 0 <= k < b1.len() && b1[k] == y;
                let kb = if k < j { k } else { k + 1 };
                assert(b[kb] == y && kb != j);
                assert(a.to_set().contains(y));
                let i = choose|i: int| 0 <= i < a.len() && a[i] == y;
                assert(i != a.len() - 1);
                assert(a1[i] == y);
            }
        }
        assert(a1.to_set() =~= b1.to_set());
        assert(b1.no_duplicates()) by {
            assert forall|p: int, q: int| 0 <= p < b1.len() && 0 <= q < b1.len() && p != q implies b1[p]
                != b1[q] by {
                let pb = if p < j { p } else { p + 1 };
                let qb = if q < j { q } else { q + 1 };
                assert(b1[p] == b[pb] && b1[q] == b[qb]);
            }
        }
        lemma_count_listing_order(m, a1, b1);
    }
}

/// Every listing of the buckets, none named twice, counts all their values.
pub proof fn lemma_entry_count_listing<V>(m: Map<Seq<char>, Map<Seq<char>, V>>, names: Seq<Seq<char>>)
    requires
        m.dom().finite(),
        names.no_duplicates(),
        names.to_set() == m.dom(),
    ensures
        entry_count(m) == count_in(m, names),
{
    crate::text::lemma_sorted_listing_exists(m.dom());
    crate::text::lemma_sorted_no_duplicates(sorted_listing(m.dom()));
    lemma_count_listing_order(m, sorted_listing(m.dom()), names);
}

/// Counts over a listing agree for two stores whose listed buckets hold as many values each.
pub proof fn lemma_count_agree<V>(
    m1: Map<Seq<char>, Map<Seq<char>, V>>,
    m2: Map<Seq<char>, Map<Seq<char>, V>>,
    names: Seq<Seq<char>>,
)
    requires
        forall|i: int| 0 <= i < names.len() ==> #[trigger] m1[names[i]].len() == m2[names[i]].len(),
    ensures
        count_in(m1, names) == count_in(m2, names),
    decreases names.len(),
{
    if names.len() > 0 {
        assert forall|i: int| 0 <= i < names.drop_last().len() implies #[trigger] m1[
            names.drop_last()[i]
        ].len() == m2[names.drop_last()[i]].len() by {
            assert(m1[names[i]].len() == m2[names[i]].len());
        }
        lemma_count_agree(m1, m2, names.drop_last());
        assert(m1[names[names.len() - 1]].len() == m2[names[names.len() - 1]].len());
    }
}

/// Changing what one listed bucket holds changes the count by the change in its size.
proof fn lemma_count_one_changed<V>(
    m1: Map<Seq<char>, Map<Seq<char>, V>>,
    m2: Map<Seq<char>, Map<Seq<char>, V>>,
    names: Seq<Seq<char>>,
    j: int,
)
    requires
        0 <= j < names.len(),
        names.no_duplicates(),
        forall|i: int| 0 <= i < names.len() && i != j ==> #[trigger] m1[names[i]] == m2[names[i]],
    ensures
        count_in(m2, names) + m1[names[j]].len() == count_in(m1, names) + m2[names[j]].len(),
{
    lemma_count_remove(m1, names, j);
    lemma_count_remove(m2, names, j);
    let rest = names.remove(j);
    assert forall|i: int| 0 <= i < rest.len() implies #[trigger] m1[rest[i]].len() == m2[rest[i]].len() by {
        let k = if i < j { i } else { i + 1 };
        assert(rest[i] == names[k] && k != j);
    }
    lemma_count_agree(m1, m2, rest);
}

/// Inserting under a key that holds no value adds one value to the count; replacing a value leaves
/// the count as it was.
pub proof fn law_count_after_insert<V>(
    m: Map<Seq<char>, Map<Seq<char>, V>>,
    bucket: Seq<char>,
    key: Seq<char>,
    value: V,
)
    requires
        m.dom().finite(),
        forall|b: Seq<char>| #[trigger] m.dom().contains(b) ==> m[b].dom().finite(),
    ensures
        entry_count(after_insert(m, bucket, key, value)) == entry_count(m) + if lookup(m, bucket, key) is None {
            1int
        } else {
            0int
        },
{
    let m2 = after_insert(m, bucket, key, value);
    crate::text::lemma_sorted_listing_exists(m.dom());
    let l = sorted_listing(m.dom());
    crate::text::lemma_sorted_no_duplicates(l);
    if m.dom().contains(bucket) {
        assert(m2.dom() =~= m.dom());
        lemma_entry_count_listing(m2, l);
        assert(l.to_set().contains(bucket));
        let j = choose|j: int| 0 <= j < l.len() && l[j] == bucket;
        lemma_count_one_changed(m, m2, l, j);
    } else {
        let l2 = l.push(bucket);
        assert forall|y: Seq<char>| #[trigger] l2.to_set().contains(y) == m2.dom().contains(y) by {
            if l2.to_set().contains(y) {
                let i = choose|i: int| 0 <= i < l2.len() && l2[i] == y;
                if i < l.len() {
                    assert(l[i] == y);
                    assert(l.to_set().contains(y));
                }
            }
            if m2.dom().contains(y) {
                if y == bucket {
                    assert(l2[l.len() as int] == y);
                } else {
                    assert(l.to_set().contains(y));
                    let i = choose|i: int| 0 <= i < l.len() && l[i] == y;
                    assert(l2[i] == y);
                }
            }
        }
        assert(l2.to_set() =~= m2.dom());
        assert(l2.no_duplicates()) by {
            assert(!l.to_set().contains(bucket));
        }
        lemma_entry_count_listing(m2, l2);
        assert(l2.drop_last() =~= l);
        assert forall|i: int| 0 <= i < l.len() implies #[trigger] m[l[i]].len() == m2[l[i]].len() by {
            assert(l.to_set().contains(l[i]));
        }
        lemma_count_agree(m, m2, l);
        assert(m2[bucket].dom() =~= set![key]);
    }
}

/// Removing a value that is there takes one value from the count; removing one that is not changes
/// nothing.
pub proof fn law_count_after_remove<V>(
    m: Map<Seq<char>, Map<Seq<char>, V>>,
    bucket: Seq<char>,
    key: Seq<char>,
)
    requires
        m.dom().finite(),
        forall|b: Seq<char>| #[trigger] m.dom().contains(b) ==> m[b].dom().finite(),
    ensures
        entry_count(after_remove(m, bucket, key)) + if lookup(m, bucket, key) is Some {
            1int
        } else {
            0int
        } == entry_count(m),
{
    let m2 = after_remove(m, bucket, key);
    if m.dom().contains(bucket) {
        crate::text::lemma_sorted_listing_exists(m.dom());
        let l = sorted_listing(m.dom());
        crate::text::lemma_sorted_no_duplicates(l);
        assert(m2.dom() =~= m.dom());
        lemma_entry_count_listing(m2, l);
        assert(l.to_set().contains(bucket));
        let j = choose|j: int| 0 <= j < l.len() && l[j] == bucket;
        lemma_count_one_changed(m, m2, l, j);
    }
}

/// Counting values does not depend on how they are seen.
pub proof fn lemma_count_over_texts<V: View<V = Seq<char>>>(
    m: Map<Seq<char>, Map<Seq<char>, V>>,
    names: Seq<Seq<char>>,
)
    requires
        forall|i: int| 0 <= i < names.len() ==> m.dom().contains(#[trigger] names[i]),
    ensures
        count_in(texts(m), names) == count_in(m, names),
    decreases names.len(),
{
    if names.len() > 0 {
        lemma_count_over_texts(m, names.drop_last());
        let n = names.last();
        assert(m.dom().contains(names[names.len() - 1]));
        assert(texts(m)[n].dom() =~= m[n].dom());
    }
}

/// The buckets hold as many values seen as text as they hold values.
pub proof fn lemma_entry_count_texts<V: View<V = Seq<char>>>(m: Map<Seq<char>, Map<Seq<char>, V>>)
    requires
        m.dom().finite(),
    ensures
        entry_count(texts(m)) == entry_count(m),
{
    assert(texts(m).dom() =~= m.dom());
    crate::text::lemma_sorted_listing_exists(m.dom());
    let l = sorted_listing(m.dom());
    assert forall|i: int| 0 <= i < l.len() implies m.dom().contains(#[trigger] l[i]) by {
        assert(l.to_set().contains(l[i]));
    }
    lemma_count_over_texts(m, l);
}

/// The count over a prefix of a listing is at most the count over the whole listing.
pub proof fn lemma_count_prefix<V>(
    m: Map<Seq<char>, Map<Seq<char>, V>>,
    names: Seq<Seq<char>>,
    j: int,
)
    requires
        0 <= j <= names.len(),
    ensures
        count_in(m, names.take(j)) <= count_in(m, names),
    decreases names.len(),
{
    if j < names.len() {
        assert(names.drop_last().take(j) =~= names.take(j));
        lemma_count_prefix(m, names.drop_last(), j);
    } else {
        assert(names.take(j) =~= names);
    }
}

impl<B: Named, K: Named, V> Buckets<B, K, V> {
    /// Every bucket as a map from key names to values, under the bucket's name.
    pub closed spec fn view(&self) -> Map<Seq<char>, Map<Seq<char>, V>> {
        self.table@.map_values(|t: Table<K, V>| t@)
    }

    #[verifier::type_invariant]
    closed spec fn wf(&self) -> bool {
        &&& self.table.wf()
        &&& forall|n: Seq<char>| #[trigger] self.table@.dom().contains(n) ==> self.table@[n].wf()
    }

    /// Creates an empty set of buckets.
    pub fn new() -> (r: Self)
        ensures
            r@ == Map::<Seq<char>, Map<Seq<char>, V>>::empty(),
    {
        let r = Buckets { table: Table::new() };
        assert(r@ =~= Map::<Seq<char>, Map<Seq<char>, V>>::empty());
        r
    }

    /// Inserts a value, creating its bucket if needed, and returns the value it replaced, if any.
    pub fn insert(&mut self, bucket: B, key: K, value: V) -> (r: Option<V>)
        ensures
            final(self)@ == after_insert(old(self)@, bucket.name(), key.name(), value),
            r == lookup(old(self)@, bucket.name(), key.name()),
    {
        proof {
            use_type_invariant(&*self);
        }
        let ghost b = bucket.name();
        let ghost k = key.name();
        let mut table = Table::new();
        std::mem::swap(&mut table, &mut self.table);
        let i = match table.position(bucket.name_str()) {
            Some(i) => i,
            None => table.push(bucket, Table::new()),
        };
        proof {
            table.lemma_entry(i as int);
        }
        let section = table.value_mut(i);
        let r = section.insert(key, value);
        self.table = table;
        assert(self@ =~= after_insert(old(self)@, b, k, value));
        r
    }

    /// Makes sure a bucket exists, adding it empty if it was missing.
    pub fn open_bucket(&mut self, bucket: B)
        ensures
            final(self)@ == with_bucket(old(self)@, bucket.name()),
    {
        proof {
            use_type_invariant(&*self);
        }
        let ghost b = bucket.name();
        let mut table = Table::new();
        std::mem::swap(&mut table, &mut self.table);
        if !table.contains(bucket.name_str()) {
            table.push(bucket, Table::new());
        }
        self.table = table;
        assert(self@ =~= with_bucket(old(self)@, b));
    }

    /// Looks up a value.
    pub fn get(&self, bucket: &str, key: &str) -> (r: Option<&V>)
        ensures
            match r {
                Some(v) => lookup(self@, bucket@, key@) == Some(*v),
                None => lookup(self@, bucket@, key@) is None,
            },
    {
        proof {
            use_type_invariant(self);
        }
        match self.table.get(bucket) {
            Some(section) => section.get(key),
            None => None,
        }
    }

    /// Removes a value, returning it if it was there. Its bucket stays, even if left empty.
    pub fn remove(&mut self, bucket: &str, key: &str) -> (r: Option<V>)
        ensures
            final(self)@ == after_remove(old(self)@, bucket@, key@),
            r == lookup(old(self)@, bucket@, key@),
    {
        proof {
            use_type_invariant(&*self);
        }
        let mut table = Table::new();
        std::mem::swap(&mut table, &mut self.table);
        let r = match table.position(bucket) {
            Some(i) => {
                proof {
                    table.lemma_entry(i as int);
                }
                let section = table.value_mut(i);
                section.remove(key)
            },
            None => None,
        };
        self.table = table;
        assert(self@ =~= after_remove(old(self)@, bucket@, key@));
        r
    }

    /// Reports whether a bucket exists.
    pub fn contains_bucket(&self, bucket: &str) -> (r: bool)
        ensures
            r == self@.dom().contains(bucket@),
    {
        proof {
            use_type_invariant(self);
        }
        self.table.contains(bucket)
    }

    /// The number of buckets.
    pub fn bucket_count(&self) -> (r: usize)
        ensures
            r == self@.dom().len(),
            r == self.positions(),
            self@.dom().finite(),
            forall|i: int, j: int|
                0 <= i < j < self.positions() ==> #[trigger] self.name_at(i) != #[trigger] self.name_at(j),
            forall|i: int| 0 <= i < self.positions() ==> self@.dom().contains(#[trigger] self.name_at(i)),
            forall|n: Seq<char>|
                #[trigger] self@.dom().contains(n) ==> exists|i: int|
                    0 <= i < self.positions() && #[trigger] self.name_at(i) == n,
    {
        proof {
            use_type_invariant(self);
            self.table.lemma_names();
            assert(self@.dom() =~= self.table@.dom());
            assert forall|n: Seq<char>| #[trigger] self@.dom().contains(n) implies exists|i: int|
                0 <= i < self.positions() && #[trigger] self.name_at(i) == n by {
                assert(self.table.names().to_set().contains(n));
                let i = choose|i: int| 0 <= i < self.table.names().len() && self.table.names()[i] == n;
                assert(self.name_at(i) == n);
            }
            assert forall|i: int| 0 <= i < self.positions() implies self@.dom().contains(
                #[trigger] self.name_at(i),
            ) by {
                assert(self.table.names().to_set().contains(self.table.names()[i]));
            }
        }
        self.table.len()
    }

    /// How many positions the buckets are kept in.
    pub closed spec fn positions(&self) -> nat {
        self.table.names().len()
    }

    /// The name of the bucket kept at position `i`.
    pub closed spec fn name_at(&self, i: int) -> Seq<char> {
        self.table.names()[i]
    }

    /// Borrows the bucket name kept at position `i`.
    pub fn bucket_at(&self, i: usize) -> (r: &B)
        requires
            i < self.positions(),
        ensures
            r.name() == self.name_at(i as int),
    {
        proof {
            use_type_invariant(self);
        }
        self.table.key_at(i)
    }

    /// Borrows the bucket kept at position `i`.
    pub fn section_at(&self, i: usize) -> (r: &Table<K, V>)
        requires
            i < self.positions(),
        ensures
            r.wf(),
            self@.dom().contains(self.name_at(i as int)),
            r@ == self@[self.name_at(i as int)],
    {
        proof {
            use_type_invariant(self);
            self.table.lemma_entry(i as int);
        }
        self.table.value_at(i)
    }

    /// The positions of the buckets, in the order of their names.
    pub fn sorted_positions(&self) -> (r: Vec<usize>)
        ensures
            forall|j: int| 0 <= j < r@.len() ==> #[trigger] r@[j] < self.positions(),
            r@.map_values(|p: usize| self.name_at(p as int)) == sorted_listing(self@.dom()),
    {
        proof {
            use_type_invariant(self);
        }
        let r = self.table.sorted_positions();
        proof {
            let listed = r@.map_values(|p: usize| self.table.names()[p as int]);
            crate::text::lemma_sorted_listing(listed);
            assert(self@.dom() =~= self.table@.dom());
            assert(r@.map_values(|p: usize| self.name_at(p as int)) =~= listed);
        }
        r
    }

    /// Lists the bucket names, each once.
    pub fn bucket_names(&self) -> (r: Vec<&B>)
        ensures
            r@.map_values(|b: &B| b.name()).no_duplicates(),
            r@.map_values(|b: &B| b.name()).to_set() == self@.dom(),
    {
        proof {
            use_type_invariant(self);
            self.table.lemma_names();
        }
        let mut r: Vec<&B> = Vec::new();
        let mut i: usize = 0;
        while i < self.table.len()
            invariant
                self.table.wf(),
                i <= self.table.names().len(),
                r@.len() == i,
                forall|j: int| 0 <= j < i ==> #[trigger] r@[j].name() == self.table.names()[j],
            decreases self.table.names().len() - i,
        {
            r.push(self.table.key_at(i));
            i = i + 1;
        }
        proof {
            let listed = r@.map_values(|b: &B| b.name());
            assert(listed =~= self.table.names());
            assert(self@.dom() =~= self.table@.dom());
        }
        r
    }

    /// Lists the names of the buckets that hold at least one value, each once.
    pub fn filled_bucket_names(&self) -> (r: Vec<&B>)
        ensures
            r@.map_values(|b: &B| b.name()).no_duplicates(),
            r@.map_values(|b: &B| b.name()).to_set() == self@.dom().filter(
                |n: Seq<char>| self@[n].len() > 0,
            ),
    {
        let n = self.bucket_count();
        let mut r: Vec<&B> = Vec::new();
        let ghost mut pos: Seq<int> = Seq::empty();
        let mut i: usize = 0;
        while i < n
            invariant
                n == self.positions(),
                forall|a: int, b: int|
                    0 <= a < b < n ==> #[trigger] self.name_at(a) != #[trigger] self.name_at(b),
                forall|a: int| 0 <= a < n ==> self@.dom().contains(#[trigger] self.name_at(a)),
                forall|x: Seq<char>|
                    #[trigger] self@.dom().contains(x) ==> exists|a: int|
                        0 <= a < n && #[trigger] self.name_at(a) == x,
                i <= n,
                pos.len() == r@.len(),
                forall|j: int| 0 <= j < pos.len() ==> 0 <= #[trigger] pos[j] < i,
                forall|j: int, k: int| 0 <= j < k < pos.len() ==> #[trigger] pos[j] < #[trigger] pos[k],
                forall|j: int|
                    0 <= j < r@.len() ==> #[trigger] r@[j].name() == self.name_at(pos[j]) && self@[self.name_at(
                        pos[j],
                    )].len() > 0,
                forall|a: int|
                    0 <= a < i && self@[#[trigger] self.name_at(a)].len() > 0 ==> exists|j: int|
                        0 <= j < pos.len() && pos[j] == a,
            decreases n - i,
        {
            let section = self.section_at(i);
            let ghost old_pos = pos;
            let ghost old_r = r@;
            let filled = section.len() > 0;
            assert(section@ == self@[self.name_at(i as int)]);
            if filled {
                let b = self.bucket_at(i);
                r.push(b);
                proof {
                    pos = pos.push(i as int);
                    assert(r@[r@.len() - 1] == b);
                }
            }
            proof {
                assert forall|j: int| 0 <= j < r@.len() implies #[trigger] r@[j].name() == self.name_at(
                    pos[j],
                ) && self@[self.name_at(pos[j])].len() > 0 by {
                    if j < old_r.len() {
                        assert(r@[j] == old_r[j] && pos[j] == old_pos[j]);
                    }
                }
                assert forall|a: int|
                    0 <= a < i + 1 && self@[#[trigger] self.name_at(a)].len() > 0 implies exists|j: int|
                        0 <= j < pos.len() && pos[j] == a by {
                    if a == i {
                        assert(pos[pos.len() - 1] == a);
                    } else {
                        let j = choose|j: int| 0 <= j < old_pos.len() && old_pos[j] == a;
                        assert(pos[j] == a);
                    }
                }
            }
            i = i + 1;
        }
        proof {
            let listed = r@.map_values(|b: &B| b.name());
            let filled = self@.dom().filter(|x: Seq<char>| self@[x].len() > 0);
            assert forall|j: int, k: int| 0 <= j < listed.len() && 0 <= k < listed.len() && j != k implies listed[j]
                != listed[k] by {
                if j < k {
                    assert(pos[j] < pos[k]);
                } else {
                    assert(pos[k] < pos[j]);
                }
            }
            assert forall|x: Seq<char>| #[trigger] listed.to_set().contains(x) == filled.contains(x) by {
                if listed.to_set().contains(x) {
                    let j = choose|j: int| 0 <= j < listed.len() && listed[j] == x;
                    assert(r@[j].name() == self.name_at(pos[j]));
                }
                if filled.contains(x) {
                    let a = choose|a: int| 0 <= a < n && #[trigger] self.name_at(a) == x;
                    let j = choose|j: int| 0 <= j < pos.len() && pos[j] == a;
                    assert(listed[j] == x);
                }
            }
            assert(listed.to_set() =~= filled);
        }
        r
    }

    /// Reports whether no bucket holds a value.
    pub fn holds_nothing(&self) -> (r: bool)
        ensures
            r == (entry_count(self@) == 0),
    {
        let n = self.bucket_count();
        let mut i: usize = 0;
        while i < n
            invariant
                n == self.positions(),
                i <= n,
                self@.dom().finite(),
                forall|j: int| 0 <= j < i ==> #[trigger] self@[self.name_at(j)].len() == 0,
            decreases n - i,
        {
            let section = self.section_at(i);
            if section.len() != 0 {
                proof {
                    law_no_values_means_empty_buckets(self@);
                    assert(self@.dom().contains(self.name_at(i as int)));
                    assert(self@[self.name_at(i as int)].len() != 0);
                }
                return false;
            }
            i = i + 1;
        }
        proof {
            assert forall|b: Seq<char>| #[trigger] self@.dom().contains(b) implies self@[b].len() == 0 by {
                let j = choose|j: int| 0 <= j < self.positions() && #[trigger] self.name_at(j) == b;
                assert(self@[self.name_at(j)].len() == 0);
            }
            law_no_values_means_empty_buckets(self@);
        }
        true
    }

    /// Returns the number of values across every bucket.
    pub fn len(&self) -> (r: usize)
        requires
            entry_count(self@) <= usize::MAX,
        ensures
            r == entry_count(self@),
            self@.dom().finite(),
    {
        proof {
            use_type_invariant(self);
            self.table.lemma_names();
            assert(self@.dom() =~= self.table@.dom());
        }
        let order = self.sorted_positions();
        let ghost listing = sorted_listing(self@.dom());
        let mut total: usize = 0;
        let mut j: usize = 0;
        while j < order.len()
            invariant
                listing == order@.map_values(|p: usize| self.name_at(p as int)),
                forall|x: int| 0 <= x < order@.len() ==> #[trigger] order@[x] < self.positions(),
                j <= order@.len(),
                total == count_in(self@, listing.take(j as int)),
                count_in(self@, listing) <= usize::MAX,
            decreases order.len() - j,
        {
            let section = self.section_at(order[j]);
            proof {
                assert(listing.take(j + 1).drop_last() =~= listing.take(j as int));
                assert(listing.take(j + 1).last() == listing[j as int]);
                lemma_count_prefix(self@, listing, j + 1);
            }
            total = total + section.len();
            j = j + 1;
        }
        assert(listing.take(j as int) =~= listing);
        total
    }

    /// Keeps only the values the predicate accepts, dropping any bucket left empty.
    pub fn retain<F>(&mut self, mut predicate: F)
        where
            F: FnMut(&B, &K, &V) -> bool,
        requires
            forall|b: &B, k: &K, v: &V| call_requires(predicate, (b, k, v)),
        ensures
            final(self)@.dom().subset_of(old(self)@.dom()),
            forall|n: Seq<char>|
                #[trigger] final(self)@.dom().contains(n) ==> final(self)@[n].len() > 0,
            forall|n: Seq<char>|
                #[trigger] old(self)@.dom().contains(n) ==> decided_by(
                    predicate,
                    n,
                    old(self)@[n],
                    if final(self)@.dom().contains(n) {
                        final(self)@[n]
                    } else {
                        Map::empty()
                    },
                ),
    {
        proof {
            use_type_invariant(&*self);
        }
        let ghost before = self@;
        let ghost p0 = predicate;
        let mut source = Table::new();
        std::mem::swap(&mut source, &mut self.table);
        let mut result: Table<B, Table<K, V>> = Table::new();
        while source.len() > 0
            invariant
                source.wf(),
                result.wf(),
                forall|n: Seq<char>| #[trigger] source@.dom().contains(n) ==> source@[n].wf(),
                forall|n: Seq<char>| #[trigger] result@.dom().contains(n) ==> result@[n].wf(),
                forall|b: &B, k: &K, v: &V| call_requires(predicate, (b, k, v)),
                predicate == p0,
                forall|n: Seq<char>| #[trigger] source@.dom().contains(n) ==> before.dom().contains(n)
                    && source@[n]@ == before[n],
                forall|n: Seq<char>| #[trigger] result@.dom().contains(n) ==> before.dom().contains(n)
                    && !source@.dom().contains(n) && result@[n]@.len() > 0,
                forall|n: Seq<char>|
                    #[trigger] before.dom().contains(n) && !source@.dom().contains(n) ==> decided_by(
                        predicate,
                        n,
                        before[n],
                        if result@.dom().contains(n) {
                            result@[n]@
                        } else {
                            Map::empty()
                        },
                    ),
            decreases source@.len(),
        {
            proof {
                source.lemma_names();
                source.lemma_entry(0);
            }
            let ghost src = source@;
            let (bucket, mut section) = source.remove_at(0);
            let ghost n = bucket.name();
            let ghost held = section@;
            assert(held == before[n]);
            let mut kept: Table<K, V> = Table::new();
            while section.len() > 0
                invariant
                    section.wf(),
                    kept.wf(),
                    forall|b: &B, k: &K, v: &V| call_requires(predicate, (b, k, v)),
                    predicate == p0,
                    bucket.name() == n,
                    section@.submap_of(held),
                    kept@.submap_of(held),
                    forall|k: Seq<char>| #[trigger] kept@.dom().contains(k) ==> !section@.dom().contains(k),
                    forall|k: Seq<char>|
                        #[trigger] held.dom().contains(k) && !section@.dom().contains(k) ==> exists|
                            b: &B,
                            key: &K,
                            keep: bool,
                        |
                            b.name() == n && key.name() == k && #[trigger] call_ensures(
                                p0,
                                (b, key, &held[k]),
                                keep,
                            ) && keep == kept@.dom().contains(k),
                decreases section@.len(),
            {
                proof {
                    section.lemma_names();
                    section.lemma_entry(0);
                }
                let ghost sec_before = section@;
                let ghost kept_before = kept@;
                let (key, value) = section.remove_at(0);
                let ghost k = key.name();
                let ghost key_ref = &key;
                let keep = predicate(&bucket, &key, &value);
                if keep {
                    kept.push(key, value);
                }
                proof {
                    assert(held.dom().contains(k));
                    assert(held[k] == value);
                    assert(call_ensures(p0, (&bucket, key_ref, &held[k]), keep));
                    assert(keep == kept@.dom().contains(k));
                    assert(section@ == sec_before.remove(k));
                    assert forall|x: Seq<char>| #[trigger] kept@.dom().contains(x) && x != k implies kept_before.dom().contains(x) by {}
                    assert forall|x: Seq<char>| #[trigger] held.dom().contains(x) && !section@.dom().contains(x) implies exists|
                            b: &B,
                            key: &K,
                            keep: bool,
                        |
                            b.name() == n && key.name() == x && #[trigger] call_ensures(
                                p0,
                                (b, key, &held[x]),
                                keep,
                            ) && keep == kept@.dom().contains(x) by {
                        if x != k {
                            assert(kept@.dom().contains(x) == kept_before.dom().contains(x));
                        }
                    }
                }
            }
            let ghost res_before = result@;
            let ghost kept_view = kept@;
            proof {
                assert(section@ == Map::<Seq<char>, V>::empty());
            }
            if kept.len() > 0 {
                result.push(bucket, kept);
            } else {
                assert(kept_view == Map::<Seq<char>, V>::empty());
            }
            proof {
                assert(source@ == src.remove(n));
                assert(decided_by(p0, n, before[n], if result@.dom().contains(n) { result@[n]@ } else { Map::empty() }));
                assert forall|m: Seq<char>|
                    #[trigger] before.dom().contains(m) && !source@.dom().contains(m) implies decided_by(
                        predicate,
                        m,
                        before[m],
                        if result@.dom().contains(m) {
                            result@[m]@
                        } else {
                            Map::empty()
                        },
                    ) by {
                    if m != n {
                        assert(!src.dom().contains(m));
                        assert(result@.dom().contains(m) == res_before.dom().contains(m));
                    }
                }
            }
        }
        proof {
            assert(source@ == Map::<Seq<char>, Table<K, V>>::empty());
        }
        self.table = result;
        proof {
            assert(self@.dom() =~= result@.dom());
        }
    }
}

} // verus!
