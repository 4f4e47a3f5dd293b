//! Copying a store of plain strings out into standard maps.
use vstd::prelude::*;
use std::collections::HashMap;
use vstd::std_specs::hash::obeys_key_model;

use crate::buckets::{texts, value_texts, Buckets};
use crate::table::{Named, Table};

verus! {

/// `copy` holds exactly the values of `values`, each under a `String` spelling its key.
pub open spec fn copies_bucket(
    copy: Map<String, String>,
    values: Map<Seq<char>, Seq<char>>,
) -> bool {
    &&& forall|k: String| #[trigger] copy.dom().contains(k) ==> values.dom().contains(k@) && copy[k]@
        == values[k@]
    &&& forall|n: Seq<char>| #[trigger] values.dom().contains(n) ==> exists|k: String|
        k@ == n && #[trigger] copy.dom().contains(k)
}

/// `copy` holds exactly the buckets of `m`, each under a `String` spelling its name.
pub open spec fn copies_store(
    copy: Map<String, HashMap<String, String>>,
    m: Map<Seq<char>, Map<Seq<char>, Seq<char>>>,
) -> bool {
    &&& forall|b: String| #[trigger] copy.dom().contains(b) ==> m.dom().contains(b@) && copies_bucket(
        copy[b]@,
        m[b@],
    )
    &&& forall|n: Seq<char>| #[trigger] m.dom().contains(n) ==> exists|b: String|
        b@ == n && #[trigger] copy.dom().contains(b)
}

/// Copies one bucket into a `HashMap`.
///
/// What a `HashMap` holds is only known for key types that obey the hash-table model; the copy is
/// described for `String` keys on that condition.
fn copy_bucket(section: &Table<String, String>) -> (r: HashMap<String, String>)
    requires
        section.wf(),
    ensures
        obeys_key_model::<String>() ==> copies_bucket(r@, value_texts(section@)),
{
    broadcast use vstd::std_specs::hash::group_hash_axioms;

    proof {
        section.lemma_names();
        assert forall|j: int| 0 <= j < section.names().len() implies #[trigger] section.keys()[j]@
            == section.names()[j] by {
            assert(section.keys()[j].name() == section.names()[j]);
        }
        assert forall|j: int| 0 <= j < section.names().len() implies section@.dom().contains(
            #[trigger] section.names()[j],
        ) by {
            section.lemma_entry(j);
        }
    }
    let mut copy: HashMap<String, String> = HashMap::new();
    let n = section.len();
    let mut i: usize = 0;
    while i < n
        invariant
            section.wf(),
            n == section.names().len(),
            section.names().len() == section.keys().len(),
            section.names().len() == section.values().len(),
            forall|j: int| 0 <= j < n ==> #[trigger] section.keys()[j]@ == section.names()[j],
            forall|j: int| 0 <= j < n ==> section@[#[trigger] section.names()[j]] == section.values()[j],
            forall|j: int| 0 <= j < n ==> section@.dom().contains(#[trigger] section.names()[j]),
            section.names().no_duplicates(),
            i <= n,
            obeys_key_model::<String>() ==> forall|k: String| #[trigger] copy@.dom().contains(k)
                ==> exists|j: int|
                0 <= j < i && section.keys()[j] == k && copy@[k] == section.values()[j],
            obeys_key_model::<String>() ==> forall|j: int|
                0 <= j < i ==> copy@.dom().contains(#[trigger] section.keys()[j]),
        decreases n - i,
    {
        let key = section.key_at(i).clone();
        let value = section.value_at(i).clone();
        let ghost before = copy@;
        copy.insert(key, value);
        proof {
            if obeys_key_model::<String>() {
                assert forall|k: String| #[trigger] copy@.dom().contains(k) implies exists|j: int|
                    0 <= j < i + 1 && section.keys()[j] == k && copy@[k] == section.values()[j] by {
                    if k != section.keys()[i as int] {
                        assert(before.dom().contains(k));
                    }
                }
                assert forall|j: int| 0 <= j < i + 1 implies copy@.dom().contains(
                    #[trigger] section.keys()[j],
                ) by {
                    if j < i {
                        assert(before.dom().contains(section.keys()[j]));
                    }
                }
            }
        }
        i = i + 1;
    }
    proof {
        if obeys_key_model::<String>() {
            let vals = value_texts(section@);
            assert forall|k: String| #[trigger] copy@.dom().contains(k) implies vals.dom().contains(k@)
                && copy@[k]@ == vals[k@] by {
                let j = choose|j: int|
                    0 <= j < i && section.keys()[j] == k && copy@[k] == section.values()[j];
                assert(section.keys()[j]@ == section.names()[j]);
            }
            assert forall|m: Seq<char>| #[trigger] vals.dom().contains(m) implies exists|k: String|
                k@ == m && #[trigger] copy@.dom().contains(k) by {
                assert(section.names().to_set().contains(m));
                let j = choose|j: int| 0 <= j < n && section.names()[j] == m;
                assert(copy@.dom().contains(section.keys()[j]));
            }
        }
    }
    copy
}

/// Copies every bucket into a map of maps.
pub fn copy_out(buckets: &Buckets<String, String, String>) -> (r: HashMap<
    String,
    HashMap<String, String>,
>)
    ensures
        obeys_key_model::<String>() ==> copies_store(r@, texts(buckets@)),
{
    broadcast use vstd::std_specs::hash::group_hash_axioms;

    let ghost m = texts(buckets@);
    let mut copy: HashMap<String, HashMap<String, String>> = HashMap::new();
    let n = buckets.bucket_count();
    let mut i: usize = 0;
    while i < n
        invariant
            m == texts(buckets@),
            n == buckets.positions(),
            forall|a: int, b: int|
                0 <= a < b < n ==> #[trigger] buckets.name_at(a) != #[trigger] buckets.name_at(b),
            forall|a: int| 0 <= a < n ==> buckets@.dom().contains(#[trigger] buckets.name_at(a)),
            forall|x: Seq<char>|
                #[trigger] buckets@.dom().contains(x) ==> exists|a: int|
                    0 <= a < n && #[trigger] buckets.name_at(a) == x,
            i <= n,
            obeys_key_model::<String>() ==> forall|b: String| #[trigger] copy@.dom().contains(b)
                ==> exists|a: int|
                0 <= a < i && b@ == buckets.name_at(a) && copies_bucket(copy@[b]@, m[b@]),
            obeys_key_model::<String>() ==> forall|a: int|
                0 <= a < i ==> exists|b: String|
                    b@ == #[trigger] buckets.name_at(a) && copy@.dom().contains(b),
        decreases n - i,
    {
        let name = buckets.bucket_at(i).clone();
        let section = buckets.section_at(i);
        let inner = copy_bucket(section);
        let ghost before = copy@;
        proof {
            assert(m[name@] == value_texts(section@));
        }
        copy.insert(name, inner);
        proof {
            if obeys_key_model::<String>() {
                assert forall|b: String| #[trigger] copy@.dom().contains(b) implies exists|a: int|
                    0 <= a < i + 1 && b@ == buckets.name_at(a) && copies_bucket(copy@[b]@, m[b@]) by {
                    if b != name {
                        assert(before.dom().contains(b));
                    }
                }
                assert forall|a: int| 0 <= a < i + 1 implies exists|b: String|
                    b@ == #[trigger] buckets.name_at(a) && copy@.dom().contains(b) by {
                    if a < i {
                        let b = choose|b: String| b@ == buckets.name_at(a) && before.dom().contains(b);
                        if b != name {
                            assert(copy@.dom().contains(b));
                        } else {
                            assert(copy@.dom().contains(name));
                        }
                    } else {
                        assert(copy@.dom().contains(name));
                    }
                }
            }
        }
        i = i + 1;
    }
    proof {
        if obeys_key_model::<String>() {
            assert(m.dom() =~= buckets@.dom());
            assert forall|b: String| #[trigger] copy@.dom().contains(b) implies m.dom().contains(b@)
                && copies_bucket(copy@[b]@, m[b@]) by {
                let a = choose|a: int|
                    0 <= a < i && b@ == buckets.name_at(a) && copies_bucket(copy@[b]@, m[b@]);
            }
            assert forall|x: Seq<char>| #[trigger] m.dom().contains(x) implies exists|b: String|
                b@ == x && #[trigger] copy@.dom().contains(b) by {
                let a = choose|a: int| 0 <= a < n && #[trigger] buckets.name_at(a) == x;
                let b = choose|b: String| b@ == buckets.name_at(a) && copy@.dom().contains(b);
            }
        }
    }
    copy
}

} // verus!
