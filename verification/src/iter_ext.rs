//! Extension methods on every iterator.
//!
//! `collect_sorted` drains an iterator into a `Vec` and sorts it by the items' `Ord`. What it hands
//! back is always exactly the items the iterator yields; it is in order whenever the items' `Ord` is
//! a total order, which is what `Ord` asks of every implementation.
use vstd::prelude::*;
use std::cmp::Ordering;
use vstd::std_specs::cmp::OrdSpec;
use vstd::std_specs::iter::IteratorSpec;

verus! {

/// `a` sorts after `b` by the item type's `Ord`.
pub open spec fn sorts_after<T: Ord>(a: T, b: T) -> bool {
    a.cmp_spec(&b) == Ordering::Greater
}

/// The item type's `Ord` is a total order, as `Ord` requires of every implementation.
pub open spec fn orders_totally<T: Ord>() -> bool {
    &&& T::obeys_cmp_spec()
    &&& forall|a: T, b: T| #[trigger] sorts_after(a, b) ==> !sorts_after(b, a)
    &&& forall|a: T, b: T, c: T|
        #![trigger sorts_after(a, b), sorts_after(b, c)]
        #![trigger sorts_after(a, b), sorts_after(a, c)]
        #![trigger sorts_after(b, c), sorts_after(a, c)]
        !sorts_after(a, b) && !sorts_after(b, c) ==> !sorts_after(a, c)
}

/// No item sorts after one that comes later.
pub open spec fn in_order<T: Ord>(s: Seq<T>) -> bool {
    forall|i: int, j: int| 0 <= i < j < s.len() ==> !sorts_after(#[trigger] s[i], #[trigger] s[j])
}

/// Reports whether `a` sorts after `b`.
fn is_after<T: Ord>(a: &T, b: &T) -> (r: bool)
    ensures
        orders_totally::<T>() ==> r == sorts_after(*a, *b),
{
    match a.cmp(b) {
        Ordering::Greater => true,
        _ => false,
    }
}

/// Inserts `x` before the first item that sorts after it, so that items that compare equal keep the
/// order they arrived in.
fn insert_in_order<T: Ord>(sorted: &mut Vec<T>, x: T)
    requires
        orders_totally::<T>() ==> in_order(old(sorted)@),
    ensures
        final(sorted)@.to_multiset() == old(sorted)@.to_multiset().insert(x),
        orders_totally::<T>() ==> in_order(final(sorted)@),
{
    broadcast use vstd::seq_lib::to_multiset_insert;

    let mut p: usize = 0;
    while p < sorted.len()
        invariant
            p <= sorted@.len(),
            orders_totally::<T>() ==> forall|i: int| 0 <= i < p ==> !sorts_after(#[trigger] sorted@[i], x),
        ensures
            p <= sorted@.len(),
            orders_totally::<T>() ==> forall|i: int| 0 <= i < p ==> !sorts_after(#[trigger] sorted@[i], x),
            orders_totally::<T>() && p < sorted@.len() ==> sorts_after(sorted@[p as int], x),
        decreases sorted.len() - p,
    {
        if is_after(&sorted[p], &x) {
            break;
        }
        p = p + 1;
    }
    let ghost s = sorted@;
    sorted.insert(p, x);
    proof {
        if orders_totally::<T>() {
            let n = sorted@;
            assert(n == s.insert(p as int, x));
            assert forall|i: int, j: int| 0 <= i < j < n.len() implies !sorts_after(#[trigger] n[i], #[trigger] n[j]) by {
                if j < p {
                    assert(n[i] == s[i] && n[j] == s[j]);
                } else if j == p {
                    assert(n[i] == s[i]);
                } else if i == p {
                    assert(n[j] == s[j - 1]);
                    assert(sorts_after(s[p as int], x));
                    assert(!sorts_after(x, s[p as int]));
                    if j - 1 > p {
                        assert(!sorts_after(s[p as int], s[j - 1]));
                    }
                } else if i < p {
                    assert(n[i] == s[i] && n[j] == s[j - 1]);
                } else {
                    assert(n[i] == s[i - 1] && n[j] == s[j - 1]);
                }
            }
        }
    }
}

/// Convenience methods on every iterator.
pub trait IteratorExt: Iterator {
    /// Collects into a `Vec` and sorts it.
    ///
    /// The iterator must be one that ends: one with a decreasing measure, as the iterators of
    /// collections and ranges have.
    fn collect_sorted(self) -> (r: Vec<Self::Item>)
        where
            Self: Sized,
            Self::Item: Ord,
        requires
            self.obeys_prophetic_iter_laws(),
            self.decrease() is Some,
        ensures
            r@.to_multiset() == self.remaining().to_multiset(),
            orders_totally::<Self::Item>() ==> in_order(r@),
    {
        broadcast use vstd::seq_lib::group_to_multiset_ensures;

        let mut it = self;
        let ghost all = it.remaining();
        let mut items: Vec<Self::Item> = Vec::new();
        assert(items@ =~= all.take(all.len() - it.remaining().len()));
        loop
            invariant
                it.obeys_prophetic_iter_laws(),
                it.decrease() is Some,
                all.take(all.len() - it.remaining().len()) + it.remaining() == all,
                it.remaining().len() <= all.len(),
                items@.to_multiset() == all.take(all.len() - it.remaining().len()).to_multiset(),
                orders_totally::<Self::Item>() ==> in_order(items@),
            ensures
                items@.to_multiset() == all.to_multiset(),
                orders_totally::<Self::Item>() ==> in_order(items@),
            decreases it.decrease()->0,
        {
            let ghost done = all.take(all.len() - it.remaining().len());
            let ghost rest = it.remaining();
            match it.next() {
                Some(x) => {
                    insert_in_order(&mut items, x);
                    proof {
                        assert(rest[0] == x);
                        assert(all.take(all.len() - it.remaining().len()) =~= done.push(x)) by {
                            assert(done + rest == all);
                        }
                        vstd::seq_lib::to_multiset_build(done, x);
                        assert(all.take(all.len() - it.remaining().len()) + it.remaining() =~= all) by {
                            assert(done + rest == all);
                        }
                    }
                },
                None => {
                    assert(all.take(all.len() - it.remaining().len()) =~= all);
                    break;
                },
            }
        }
        items
    }
}

impl<I> IteratorExt for I where I: Iterator {}

} // verus!
