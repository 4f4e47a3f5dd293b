//! A map from names to values, kept as a list of entries with no two entries sharing a name.
//!
//! This is the container every store is built from: a bucket table maps bucket names to key tables,
//! and a key table maps keys to values. Its abstract view is a `Map` from the text of each name to its
//! value, so that contracts can be written in the terms a `HashMap` would be described in.
use vstd::prelude::*;

use crate::text::{is_sorted_names, same_text, text_less, text_lt};

verus! {

/// Something that is looked up by the text of its name.
pub trait Named {
    /// The text of the name.
    spec fn name(&self) -> Seq<char>;

    /// Borrows the name.
    fn name_str(&self) -> (r: &str)
        ensures
            r@ == self.name(),
    ;
}

impl Named for String {
    open spec fn name(&self) -> Seq<char> {
        self@
    }

    fn name_str(&self) -> (r: &str) {
        self.as_str()
    }
}

/// A map from names to values.
pub struct Table<K: Named, V> {
    entries: Vec<(K, V)>,
}

impl<K: Named, V> Table<K, V> {
    /// The names of the entries, in the order the entries are kept.
    pub closed spec fn names(&self) -> Seq<Seq<char>> {
        self.entries@.map_values(|e: (K, V)| e.0.name())
    }

    /// The keys of the entries, in the order the entries are kept.
    pub closed spec fn keys(&self) -> Seq<K> {
        self.entries@.map_values(|e: (K, V)| e.0)
    }

    /// The values of the entries, in the order the entries are kept.
    pub closed spec fn values(&self) -> Seq<V> {
        self.entries@.map_values(|e: (K, V)| e.1)
    }

    /// No two entries share a name.
    pub closed spec fn wf(&self) -> bool {
        forall|i: int, j: int|
            0 <= i < self.entries@.len() && 0 <= j < self.entries@.len() && i != j
                ==> #[trigger] self.entries@[i].0.name() != #[trigger] self.entries@[j].0.name()
    }

    /// The table as a map from names to values.
    pub closed spec fn view(&self) -> Map<Seq<char>, V> {
        Map::new(
            |n: Seq<char>| self.names().contains(n),
            |n: Seq<char>| self.values()[self.names().index_of(n)],
        )
    }

    /// The entry kept at position `i` is found under its name.
    pub proof fn lemma_entry(&self, i: int)
        requires
            self.wf(),
            0 <= i < self.names().len(),
        ensures
            self.names().len() == self.keys().len(),
            self.names().len() == self.values().len(),
            self.keys()[i].name() == self.names()[i],
            self.view().dom().contains(self.names()[i]),
            self.view()[self.names()[i]] == self.values()[i],
    {
        assert(self.names().contains(self.names()[i]));
    }

    /// The names of the entries are exactly the names in the map, each once.
    pub proof fn lemma_names(&self)
        requires
            self.wf(),
        ensures
            self.names().no_duplicates(),
            self.names().to_set() == self.view().dom(),
            self.names().len() == self.keys().len(),
            self.names().len() == self.values().len(),
            self.view().dom().finite(),
            self.view().dom().len() == self.names().len(),
            forall|i: int|
                0 <= i < self.names().len() ==> #[trigger] self.keys()[i].name()
                    == self.names()[i],
            forall|i: int|
                0 <= i < self.names().len() ==> self.view()[#[trigger] self.names()[i]]
                    == self.values()[i],
    {
        assert(self.names().to_set() =~= self.view().dom());
        self.names().unique_seq_to_set();
        assert forall|i: int| 0 <= i < self.names().len() implies self.view()[
            #[trigger] self.names()[i]] == self.values()[i] by {
            self.lemma_entry(i);
        }
    }

    /// Creates an empty table.
    pub fn new() -> (r: Self)
        ensures
            r.wf(),
            r@ == Map::<Seq<char>, V>::empty(),
            r.names() == Seq::<Seq<char>>::empty(),
    {
        let r = Table { entries: Vec::new() };
        assert(r.names() =~= Seq::<Seq<char>>::empty());
        assert(r@ =~= Map::<Seq<char>, V>::empty());
        r
    }

    /// Returns the number of entries.
    pub fn len(&self) -> (r: usize)
        requires
            self.wf(),
        ensures
            r == self@.len(),
            r == self.names().len(),
            (r == 0) == (self@ == Map::<Seq<char>, V>::empty()),
    {
        proof {
            self.lemma_names();
            if self.names().len() == 0 {
                assert(self@ =~= Map::<Seq<char>, V>::empty());
            } else {
                assert(self@.dom().contains(self.names()[0]));
            }
        }
        self.entries.len()
    }

    /// Finds the position of the entry with the given name.
    pub fn position(&self, name: &str) -> (r: Option<usize>)
        requires
            self.wf(),
        ensures
            match r {
                Some(i) => i < self.names().len() && self.names()[i as int] == name@,
                None => !self@.dom().contains(name@),
            },
    {
        proof {
            self.lemma_names();
        }
        let mut i: usize = 0;
        while i < self.entries.len()
            invariant
                i <= self.entries@.len(),
                self.names().len() == self.entries@.len(),
                forall|j: int| 0 <= j < i ==> self.names()[j] != name@,
                forall|j: int|
                    0 <= j < self.entries@.len() ==> #[trigger] self.keys()[j].name()
                        == self.names()[j],
            decreases self.entries.len() - i,
        {
            let found = same_text(self.entries[i].0.name_str(), name);
            assert(self.keys()[i as int] == self.entries@[i as int].0);
            if found {
                return Some(i);
            }
            i = i + 1;
        }
        None
    }

    /// Looks up the value kept under a name.
    pub fn get(&self, name: &str) -> (r: Option<&V>)
        requires
            self.wf(),
        ensures
            match r {
                Some(v) => self@.dom().contains(name@) && *v == self@[name@],
                None => !self@.dom().contains(name@),
            },
    {
        match self.position(name) {
            Some(i) => {
                proof {
                    self.lemma_entry(i as int);
                    assert(self.values()[i as int] == self.entries@[i as int].1);
                }
                Some(&self.entries[i].1)
            },
            None => None,
        }
    }

    /// Reports whether a name is in the table.
    pub fn contains(&self, name: &str) -> (r: bool)
        requires
            self.wf(),
        ensures
            r == self@.dom().contains(name@),
    {
        match self.position(name) {
            Some(i) => {
                proof {
                    self.lemma_entry(i as int);
                }
                true
            },
            None => false,
        }
    }

    /// Borrows the key at position `i`.
    pub fn key_at(&self, i: usize) -> (r: &K)
        requires
            self.wf(),
            i < self.names().len(),
        ensures
            *r == self.keys()[i as int],
            r.name() == self.names()[i as int],
    {
        proof {
            self.lemma_names();
        }
        &self.entries[i].0
    }

    /// Borrows the value at position `i`.
    pub fn value_at(&self, i: usize) -> (r: &V)
        requires
            self.wf(),
            i < self.names().len(),
        ensures
            *r == self.values()[i as int],
            *r == self@[self.names()[i as int]],
    {
        proof {
            self.lemma_names();
        }
        &self.entries[i].1
    }

    /// Lends out the value at position `i`; whatever it is left holding stays under the same name.
    pub fn value_mut(&mut self, i: usize) -> (r: &mut V)
        requires
            old(self).wf(),
            i < old(self).names().len(),
        ensures
            final(self).wf(),
            *r == old(self).values()[i as int],
            *r == old(self)@[old(self).names()[i as int]],
            final(self).names() == old(self).names(),
            final(self).keys() == old(self).keys(),
            final(self).values() == old(self).values().update(i as int, *final(r)),
            final(self)@ == old(self)@.insert(old(self).names()[i as int], *final(r)),
    {
        proof {
            self.lemma_names();
        }
        &mut self.entries[i].1
    }

    /// Adds an entry under a name that is not in the table yet, returning its position.
    pub fn push(&mut self, key: K, value: V) -> (r: usize)
        requires
            old(self).wf(),
            !old(self)@.dom().contains(key.name()),
        ensures
            final(self).wf(),
            r == old(self).names().len(),
            final(self).names() == old(self).names().push(key.name()),
            final(self).keys() == old(self).keys().push(key),
            final(self).values() == old(self).values().push(value),
            final(self)@ == old(self)@.insert(key.name(), value),
    {
        proof {
            self.lemma_names();
        }
        let ghost name = key.name();
        let ghost before = *self;
        let r = self.entries.len();
        self.entries.push((key, value));
        proof {
            assert(self.names() =~= before.names().push(name));
            assert(self.keys() =~= before.keys().push(key));
            assert(self.values() =~= before.values().push(value));
            assert(!before.names().contains(name)) by {
                assert(before.names().to_set() == before@.dom());
            }
            self.lemma_view_after_push(before, name, value);
            assert forall|j: int| 0 <= j < before.entries@.len() implies self.entries@[j].0.name()
                != name by {
                assert(before.names()[j] == before.entries@[j].0.name());
            }
        }
        r
    }

    /// Stores a value under the key's name, returning the value it replaced, if any.
    ///
    /// When the name is already present, the entry keeps the key it was first stored with.
    pub fn insert(&mut self, key: K, value: V) -> (r: Option<V>)
        requires
            old(self).wf(),
        ensures
            final(self).wf(),
            final(self)@ == old(self)@.insert(key.name(), value),
            r == (if old(self)@.dom().contains(key.name()) {
                Some(old(self)@[key.name()])
            } else {
                None::<V>
            }),
            forall|n: Seq<char>|
                old(self).names().contains(n) ==> final(self).names().contains(n),
    {
        match self.position(key.name_str()) {
            Some(i) => {
                proof {
                    self.lemma_entry(i as int);
                }
                let mut previous = value;
                let slot = self.value_mut(i);
                std::mem::swap(slot, &mut previous);
                Some(previous)
            },
            None => {
                self.push(key, value);
                proof {
                    assert forall|n: Seq<char>| old(self).names().contains(n) implies self.names().contains(n) by {
                        let j = choose|j: int| 0 <= j < old(self).names().len() && old(self).names()[j] == n;
                        assert(self.names()[j] == n);
                    }
                }
                None
            },
        }
    }

    /// Takes the entry kept under a name out of the table.
    pub fn remove(&mut self, name: &str) -> (r: Option<V>)
        requires
            old(self).wf(),
        ensures
            final(self).wf(),
            final(self)@ == old(self)@.remove(name@),
            r == (if old(self)@.dom().contains(name@) {
                Some(old(self)@[name@])
            } else {
                None::<V>
            }),
    {
        match self.position(name) {
            Some(i) => {
                proof {
                    self.lemma_entry(i as int);
                }
                let (_, value) = self.remove_at(i);
                Some(value)
            },
            None => {
                assert(old(self)@.remove(name@) =~= old(self)@);
                None
            },
        }
    }

    /// Takes the entry at position `i` out of the table.
    pub fn remove_at(&mut self, i: usize) -> (r: (K, V))
        requires
            old(self).wf(),
            i < old(self).names().len(),
        ensures
            final(self).wf(),
            r.0 == old(self).keys()[i as int],
            r.1 == old(self).values()[i as int],
            r.0.name() == old(self).names()[i as int],
            final(self).names() == old(self).names().remove(i as int),
            final(self).keys() == old(self).keys().remove(i as int),
            final(self).values() == old(self).values().remove(i as int),
            final(self)@ == old(self)@.remove(old(self).names()[i as int]),
    {
        proof {
            self.lemma_names();
        }
        let ghost before = *self;
        let r = self.entries.remove(i);
        proof {
            assert(self.names() =~= before.names().remove(i as int));
            assert(self.keys() =~= before.keys().remove(i as int));
            assert(self.values() =~= before.values().remove(i as int));
            self.lemma_view_after_remove(before, i as int);
        }
        r
    }

    proof fn lemma_view_after_push(&self, before: Self, name: Seq<char>, value: V)
        requires
            self.names() == before.names().push(name),
            self.values() == before.values().push(value),
            before.names().no_duplicates(),
            !before.names().contains(name),
            before.names().len() == before.values().len(),
        ensures
            self@ == before@.insert(name, value),
    {
        let n = before.names().len() as int;
        assert forall|m: Seq<char>| #[trigger] self@.dom().contains(m) == before@.insert(
            name,
            value,
        ).dom().contains(m) by {
            if m != name && self.names().contains(m) {
                let j = choose|j: int| 0 <= j < self.names().len() && self.names()[j] == m;
                assert(before.names()[j] == m);
            }
            if before.names().contains(m) {
                let j = choose|j: int| 0 <= j < before.names().len() && before.names()[j] == m;
                assert(self.names()[j] == m);
            }
            if m == name {
                assert(self.names()[n] == m);
            }
        }
        assert forall|m: Seq<char>| #[trigger] self@.dom().contains(m) implies self@[m] == before@.insert(
            name,
            value,
        )[m] by {
            let k = self.names().index_of(m);
            if m == name {
                assert(self.names()[n] == m);
                assert(k == n);
            } else {
                let j = before.names().index_of(m);
                assert(before.names()[j] == m);
                assert(self.names()[j] == m);
                assert(k == j);
            }
        }
        assert(self@ =~= before@.insert(name, value));
    }

    proof fn lemma_view_after_remove(&self, before: Self, i: int)
        requires
            0 <= i < before.names().len(),
            self.names() == before.names().remove(i),
            self.values() == before.values().remove(i),
            before.names().no_duplicates(),
            before.names().len() == before.values().len(),
        ensures
            self@ == before@.remove(before.names()[i]),
    {
        let name = before.names()[i];
        assert forall|m: Seq<char>| #[trigger] self@.dom().contains(m) == before@.remove(
            name,
        ).dom().contains(m) by {
            if self.names().contains(m) {
                let j = choose|j: int| 0 <= j < self.names().len() && self.names()[j] == m;
                if j < i {
                    assert(before.names()[j] == m);
                } else {
                    assert(before.names()[j + 1] == m);
                }
            }
            if before.names().contains(m) && m != name {
                let j = choose|j: int| 0 <= j < before.names().len() && before.names()[j] == m;
                if j < i {
                    assert(self.names()[j] == m);
                } else {
                    assert(self.names()[j - 1] == m);
                }
            }
        }
        assert forall|m: Seq<char>| #[trigger] self@.dom().contains(m) implies self@[m]
            == before@.remove(name)[m] by {
            let k = self.names().index_of(m);
            let j = before.names().index_of(m);
            assert(before.names()[j] == m);
            if j < i {
                assert(self.names()[j] == m);
                assert(k == j);
            } else {
                assert(j != i);
                assert(self.names()[j - 1] == m);
                assert(k == j - 1);
            }
        }
        assert(self@ =~= before@.remove(name));
    }

    /// The positions of the entries, ordered by name.
    pub fn sorted_positions(&self) -> (r: Vec<usize>)
        requires
            self.wf(),
        ensures
            r@.len() == self.names().len(),
            forall|j: int| 0 <= j < r@.len() ==> #[trigger] r@[j] < self.names().len(),
            is_sorted_names(r@.map_values(|p: usize| self.names()[p as int])),
            r@.map_values(|p: usize| self.names()[p as int]).to_set() == self@.dom(),
    {
        proof {
            self.lemma_names();
        }
        let ghost names = self.names();
        let mut order: Vec<usize> = Vec::new();
        let mut i: usize = 0;
        while i < self.entries.len()
            invariant
                names == self.names(),
                names.no_duplicates(),
                names.len() == self.entries@.len(),
                i <= names.len(),
                order@.len() == i,
                forall|j: int| 0 <= j < order@.len() ==> #[trigger] order@[j] < i,
                forall|k: usize| k < i ==> #[trigger] order@.contains(k),
                forall|a: int, b: int|
                    0 <= a < b < order@.len() ==> text_lt(
                        names[#[trigger] order@[a] as int],
                        names[#[trigger] order@[b] as int],
                    ),
                forall|j: int|
                    0 <= j < self.entries@.len() ==> #[trigger] self.keys()[j].name() == names[j],
            decreases self.entries.len() - i,
        {
            let name = self.entries[i].0.name_str();
            assert(self.keys()[i as int] == self.entries@[i as int].0);
            let mut p: usize = 0;
            while p < order.len()
                invariant
                    name@ == names[i as int],
                    names.no_duplicates(),
                    i < names.len(),
                    names.len() == self.entries@.len(),
                    order@.len() == i,
                    forall|j: int| 0 <= j < order@.len() ==> #[trigger] order@[j] < i,
                    p <= order@.len(),
                    forall|j: int|
                        0 <= j < p ==> text_lt(names[#[trigger] order@[j] as int], names[i as int]),
                    forall|j: int|
                        0 <= j < self.entries@.len() ==> #[trigger] self.keys()[j].name()
                            == names[j],
                ensures
                    p <= order@.len(),
                    forall|j: int|
                        0 <= j < p ==> text_lt(names[#[trigger] order@[j] as int], names[i as int]),
                    p < order@.len() ==> text_lt(names[i as int], names[order@[p as int] as int]),
                decreases order.len() - p,
            {
                let q = order[p];
                let other = self.entries[q].0.name_str();
                assert(self.keys()[q as int] == self.entries@[q as int].0);
                if text_less(name, other) {
                    break;
                }
                proof {
                    assert(names[q as int] != names[i as int]);
                    crate::text::lemma_text_lt_total(names[q as int], names[i as int]);
                }
                p = p + 1;
            }
            let ghost old_order = order@;
            order.insert(p, i);
            proof {
                assert(order@ == old_order.insert(p as int, i));
                assert forall|a: int, b: int| 0 <= a < b < order@.len() implies text_lt(
                    names[#[trigger] order@[a] as int],
                    names[#[trigger] order@[b] as int],
                ) by {
                    if b == p {
                        assert(order@[a] == old_order[a]);
                    } else if a == p {
                        assert(order@[b] == old_order[b - 1]);
                        if p < old_order.len() {
                            if b - 1 > p {
                                assert(text_lt(names[old_order[p as int] as int], names[old_order[b - 1] as int]));
                            }
                            assert(text_lt(names[i as int], names[old_order[p as int] as int]));
                            if b - 1 > p {
                                crate::text::lemma_text_lt_transitive(
                                    names[i as int],
                                    names[old_order[p as int] as int],
                                    names[old_order[b - 1] as int],
                                );
                            }
                        }
                    } else if a < p && b < p {
                        assert(order@[a] == old_order[a]);
                        assert(order@[b] == old_order[b]);
                    } else if a < p {
                        assert(order@[a] == old_order[a]);
                        assert(order@[b] == old_order[b - 1]);
                    } else {
                        assert(order@[a] == old_order[a - 1]);
                        assert(order@[b] == old_order[b - 1]);
                    }
                }
                assert forall|k: usize| k < i + 1 implies #[trigger] order@.contains(k) by {
                    if k == i {
                        assert(order@[p as int] == i);
                    } else {
                        assert(old_order.contains(k));
                        let j = choose|j: int| 0 <= j < old_order.len() && old_order[j] == k;
                        if j < p {
                            assert(order@[j] == old_order[j]);
                        } else {
                            assert(order@[j + 1] == old_order[j]);
                        }
                    }
                }
                assert forall|j: int| 0 <= j < order@.len() implies #[trigger] order@[j] < i + 1 by {
                    if j < p {
                        assert(order@[j] == old_order[j]);
                    } else if j > p {
                        assert(order@[j] == old_order[j - 1]);
                    }
                }
            }
            i = i + 1;
        }
        proof {
            let listed = order@.map_values(|p: usize| names[p as int]);
            assert(is_sorted_names(listed)) by {
                assert forall|a: int, b: int| 0 <= a < b < listed.len() implies text_lt(
                    #[trigger] listed[a],
                    #[trigger] listed[b],
                ) by {
                    assert(text_lt(names[order@[a] as int], names[order@[b] as int]));
                }
            }
            assert forall|m: Seq<char>| #[trigger] listed.to_set().contains(m) == self@.dom().contains(m) by {
                if listed.to_set().contains(m) {
                    let j = choose|j: int| 0 <= j < listed.len() && listed[j] == m;
                    assert(names.contains(m)) by {
                        assert(names[order@[j] as int] == m);
                    }
                    assert(names.to_set().contains(m));
                }
                if self@.dom().contains(m) {
                    assert(names.to_set().contains(m));
                    let k = choose|k: int| 0 <= k < names.len() && names[k] == m;
                    assert(order@.contains(k as usize));
                    let j = choose|j: int| 0 <= j < order@.len() && order@[j] == k as usize;
                    assert(listed[j] == m);
                }
            }
            assert(listed.to_set() =~= self@.dom());
        }
        order
    }
}

} // verus!
