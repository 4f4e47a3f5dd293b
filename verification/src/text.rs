//! Comparing and measuring text.
//!
//! Names are compared the way `String` compares them: byte by byte over their UTF-8 encoding, the
//! shorter of two strings coming first when one is a prefix of the other.
use vstd::prelude::*;
use vstd::utf8::encode_utf8;

verus! {

/// Lexicographic order on byte strings.
pub open spec fn bytes_lt(a: Seq<u8>, b: Seq<u8>) -> bool
    decreases a.len(),
{
    if a.len() == 0 {
        b.len() > 0
    } else if b.len() == 0 {
        false
    } else if a[0] < b[0] {
        true
    } else if a[0] > b[0] {
        false
    } else {
        bytes_lt(a.drop_first(), b.drop_first())
    }
}

/// Byte strings are ordered lexicographically: `a` comes before `b` exactly when it is a proper
/// prefix of `b`, or when at the first position where they differ the byte of `a` is the smaller.
pub proof fn law_bytes_lt_is_lexicographic(a: Seq<u8>, b: Seq<u8>)
    ensures
        bytes_lt(a, b) <==> {
            ||| a.len() < b.len() && b.take(a.len() as int) == a
            ||| exists|i: int|
                0 <= i < a.len() && i < b.len() && #[trigger] a.take(i) == b.take(i) && a[i] < b[i]
        },
    decreases a.len(),
{
    if a.len() == 0 {
        assert(b.take(0) =~= a);
    } else if b.len() == 0 {
    } else if a[0] < b[0] {
        assert(a.take(0) =~= b.take(0));
    } else if a[0] > b[0] {
        if a.len() < b.len() && b.take(a.len() as int) == a {
            assert(b.take(a.len() as int)[0] == a[0]);
        }
        assert forall|i: int|
            0 <= i < a.len() && i < b.len() && #[trigger] a.take(i) == b.take(i) implies !(a[i]
            < b[i]) by {
            if i > 0 {
                assert(a.take(i)[0] == b.take(i)[0]);
            }
        }
    } else {
        let a1 = a.drop_first();
        let b1 = b.drop_first();
        law_bytes_lt_is_lexicographic(a1, b1);
        if a.len() < b.len() {
            if b.take(a.len() as int) == a {
                assert forall|k: int| 0 <= k < a1.len() implies #[trigger] b1.take(a1.len() as int)[k] == a1[k] by {
                    assert(b.take(a.len() as int)[k + 1] == a[k + 1]);
                }
                assert(b1.take(a1.len() as int) =~= a1);
            }
            if b1.take(a1.len() as int) == a1 {
                assert forall|k: int| 0 <= k < a.len() implies #[trigger] b.take(a.len() as int)[k] == a[k] by {
                    if k > 0 {
                        assert(b1.take(a1.len() as int)[k - 1] == a1[k - 1]);
                    }
                }
                assert(b.take(a.len() as int) =~= a);
            }
        }
        if exists|i: int|
            0 <= i < a.len() && i < b.len() && #[trigger] a.take(i) == b.take(i) && a[i] < b[i] {
            let i = choose|i: int|
                0 <= i < a.len() && i < b.len() && #[trigger] a.take(i) == b.take(i) && a[i] < b[i];
            assert(i > 0);
            assert forall|k: int| 0 <= k < i - 1 implies #[trigger] a1.take(i - 1)[k] == b1.take(i - 1)[k] by {
                assert(a.take(i)[k + 1] == b.take(i)[k + 1]);
            }
            assert(a1.take(i - 1) =~= b1.take(i - 1));
            assert(a1[i - 1] == a[i]);
        }
        if exists|j: int|
            0 <= j < a1.len() && j < b1.len() && #[trigger] a1.take(j) == b1.take(j) && a1[j] < b1[j] {
            let j = choose|j: int|
                0 <= j < a1.len() && j < b1.len() && #[trigger] a1.take(j) == b1.take(j) && a1[j]
                    < b1[j];
            assert forall|k: int| 0 <= k < j + 1 implies #[trigger] a.take(j + 1)[k] == b.take(j + 1)[k] by {
                if k > 0 {
                    assert(a1.take(j)[k - 1] == b1.take(j)[k - 1]);
                }
            }
            assert(a.take(j + 1) =~= b.take(j + 1));
            assert(a[j + 1] == a1[j]);
        }
    }
}

/// The order of two pieces of text: the order of their UTF-8 encodings.
pub open spec fn text_lt(a: Seq<char>, b: Seq<char>) -> bool {
    bytes_lt(encode_utf8(a), encode_utf8(b))
}

/// Names listed in strictly increasing order.
pub open spec fn is_sorted_names(s: Seq<Seq<char>>) -> bool {
    forall|i: int, j: int| 0 <= i < j < s.len() ==> text_lt(#[trigger] s[i], #[trigger] s[j])
}

/// The names of a set, listed in increasing order.
pub open spec fn sorted_listing(names: Set<Seq<char>>) -> Seq<Seq<char>> {
    choose|s: Seq<Seq<char>>| is_sorted_names(s) && s.to_set() == names
}

/// A set of names has exactly one increasing listing.
pub proof fn lemma_sorted_unique(a: Seq<Seq<char>>, b: Seq<Seq<char>>)
    requires
        is_sorted_names(a),
        is_sorted_names(b),
        a.to_set() == b.to_set(),
    ensures
        a == b,
    decreases a.len(),
{
    if a.len() == 0 {
        if b.len() > 0 {
            assert(b.to_set().contains(b[0]));
        }
        assert(a =~= b);
    } else {
        assert(a.to_set().contains(a[0]));
        assert(b.len() > 0);
        assert(b.to_set().contains(b[0]));
        let k = choose|k: int| 0 <= k < b.len() && b[k] == a[0];
        let m = choose|m: int| 0 <= m < a.len() && a[m] == b[0];
        if k > 0 {
            assert(text_lt(b[0], b[k]));
            if m > 0 {
                assert(text_lt(a[0], a[m]));
                lemma_text_lt_asymmetric(a[0], b[0]);
            } else {
                lemma_text_lt_irreflexive(a[0]);
            }
        }
        let a1 = a.drop_first();
        let b1 = b.drop_first();
        assert forall|x: Seq<char>| #[trigger] a1.to_set().contains(x) == b1.to_set().contains(x) by {
            if a1.to_set().contains(x) {
                let i = choose|i: int| 0 <= i < a1.len() && a1[i] == x;
                assert(a[i + 1] == x);
                assert(text_lt(a[0], a[i + 1]));
                lemma_text_lt_irreflexive(x);
                assert(b.to_set().contains(x));
                let j = choose|j: int| 0 <= j < b.len() && b[j] == x;
                assert(j != 0);
                assert(b1[j - 1] == x);
            }
            if b1.to_set().contains(x) {
                let i = choose|i: int| 0 <= i < b1.len() && b1[i] == x;
                assert(b[i + 1] == x);
                assert(text_lt(b[0], b[i + 1]));
                lemma_text_lt_irreflexive(x);
                assert(a.to_set().contains(x));
                let j = choose|j: int| 0 <= j < a.len() && a[j] == x;
                assert(j != 0);
                assert(a1[j - 1] == x);
            }
        }
        assert(a1.to_set() =~= b1.to_set());
        lemma_sorted_unique(a1, b1);
        assert(a =~= seq![a[0]] + a1);
        assert(b =~= seq![b[0]] + b1);
    }
}

/// An increasing listing of a set is the one `sorted_listing` names.
pub proof fn lemma_sorted_listing(s: Seq<Seq<char>>)
    requires
        is_sorted_names(s),
    ensures
        sorted_listing(s.to_set()) == s,
{
    let t = sorted_listing(s.to_set());
    assert(is_sorted_names(t) && t.to_set() == s.to_set());
    lemma_sorted_unique(t, s);
}

/// A finite, non-empty set of names has a least element.
pub proof fn lemma_least_name(s: Set<Seq<char>>)
    requires
        s.finite(),
        s.len() > 0,
    ensures
        exists|m: Seq<char>|
            s.contains(m) && forall|y: Seq<char>| #[trigger] s.contains(y) && y != m ==> text_lt(m, y),
    decreases s.len(),
{
    let a = s.choose();
    assert(s.contains(a));
    let r = s.remove(a);
    if r.len() == 0 {
        assert forall|y: Seq<char>| #[trigger] s.contains(y) && y != a implies text_lt(a, y) by {
            assert(r.contains(y));
        }
    } else {
        lemma_least_name(r);
        let m = choose|m: Seq<char>|
            r.contains(m) && forall|y: Seq<char>| #[trigger] r.contains(y) && y != m ==> text_lt(m, y);
        if text_lt(a, m) {
            assert forall|y: Seq<char>| #[trigger] s.contains(y) && y != a implies text_lt(a, y) by {
                assert(r.contains(y));
                if y != m {
                    lemma_text_lt_transitive(a, m, y);
                }
            }
        } else {
            lemma_text_lt_total(a, m);
            assert forall|y: Seq<char>| #[trigger] s.contains(y) && y != m implies text_lt(m, y) by {
                if y != a {
                    assert(r.contains(y));
                }
            }
        }
    }
}

/// Every finite set of names has an increasing listing, the one `sorted_listing` names.
pub proof fn lemma_sorted_listing_exists(s: Set<Seq<char>>)
    requires
        s.finite(),
    ensures
        is_sorted_names(sorted_listing(s)),
        sorted_listing(s).to_set() == s,
        sorted_listing(s).len() == s.len(),
    decreases s.len(),
{
    if s.len() == 0 {
        let e = Seq::<Seq<char>>::empty();
        assert(e.to_set() =~= s);
        assert(is_sorted_names(e));
        lemma_sorted_listing(e);
    } else {
        lemma_least_name(s);
        let m = choose|m: Seq<char>|
            s.contains(m) && forall|y: Seq<char>| #[trigger] s.contains(y) && y != m ==> text_lt(m, y);
        let r = s.remove(m);
        lemma_sorted_listing_exists(r);
        let l = sorted_listing(r);
        let full = seq![m] + l;
        assert forall|i: int, j: int| 0 <= i < j < full.len() implies text_lt(
            #[trigger] full[i],
            #[trigger] full[j],
        ) by {
            if i == 0 {
                assert(full[j] == l[j - 1]);
                assert(l.to_set().contains(l[j - 1]));
            } else {
                assert(full[i] == l[i - 1]);
                assert(full[j] == l[j - 1]);
            }
        }
        assert forall|y: Seq<char>| #[trigger] full.to_set().contains(y) == s.contains(y) by {
            if s.contains(y) && y != m {
                assert(l.to_set().contains(y));
                let k = choose|k: int| 0 <= k < l.len() && l[k] == y;
                assert(full[k + 1] == y);
            }
            if full.to_set().contains(y) {
                let k = choose|k: int| 0 <= k < full.len() && full[k] == y;
                if k > 0 {
                    assert(l[k - 1] == y);
                    assert(l.to_set().contains(y));
                }
            }
            if y == m {
                assert(full[0] == y);
            }
        }
        assert(full.to_set() =~= s);
        lemma_sorted_listing(full);
        lemma_sorted_no_duplicates(full);
        full.unique_seq_to_set();
    }
}

/// An increasing listing names nothing twice.
pub proof fn lemma_sorted_no_duplicates(s: Seq<Seq<char>>)
    requires
        is_sorted_names(s),
    ensures
        s.no_duplicates(),
{
    assert forall|i: int, j: int| 0 <= i < s.len() && 0 <= j < s.len() && i != j implies s[i] != s[j] by {
        if i < j {
            assert(text_lt(s[i], s[j]));
        } else {
            assert(text_lt(s[j], s[i]));
        }
        lemma_text_lt_irreflexive(s[i]);
    }
}

/// The number of bytes in the UTF-8 encoding of a piece of text.
pub open spec fn byte_len(s: Seq<char>) -> nat {
    encode_utf8(s).len()
}

/// Every character takes at least one byte.
pub proof fn lemma_byte_len_at_least_len(s: Seq<char>)
    ensures
        byte_len(s) >= s.len(),
    decreases s.len(),
{
    if s.len() > 0 {
        lemma_byte_len_at_least_len(s.drop_first());
    }
}

pub proof fn lemma_bytes_lt_irreflexive(a: Seq<u8>)
    ensures
        !bytes_lt(a, a),
    decreases a.len(),
{
    if a.len() > 0 {
        lemma_bytes_lt_irreflexive(a.drop_first());
    }
}

pub proof fn lemma_bytes_lt_asymmetric(a: Seq<u8>, b: Seq<u8>)
    ensures
        !(bytes_lt(a, b) && bytes_lt(b, a)),
    decreases a.len(),
{
    if a.len() > 0 && b.len() > 0 {
        lemma_bytes_lt_asymmetric(a.drop_first(), b.drop_first());
    }
}

pub proof fn lemma_bytes_lt_transitive(a: Seq<u8>, b: Seq<u8>, c: Seq<u8>)
    requires
        bytes_lt(a, b),
        bytes_lt(b, c),
    ensures
        bytes_lt(a, c),
    decreases a.len(),
{
    if a.len() > 0 && b.len() > 0 && c.len() > 0 {
        if a[0] == b[0] && b[0] == c[0] {
            lemma_bytes_lt_transitive(a.drop_first(), b.drop_first(), c.drop_first());
        }
    }
}

pub proof fn lemma_bytes_lt_total(a: Seq<u8>, b: Seq<u8>)
    requires
        a != b,
    ensures
        bytes_lt(a, b) || bytes_lt(b, a),
    decreases a.len(),
{
    if a.len() == 0 {
        if b.len() == 0 {
            assert(a =~= b);
        }
    } else if b.len() > 0 && a[0] == b[0] {
        if a.drop_first() == b.drop_first() {
            assert(a =~= seq![a[0]] + a.drop_first());
            assert(b =~= seq![b[0]] + b.drop_first());
        }
        lemma_bytes_lt_total(a.drop_first(), b.drop_first());
    }
}

/// Different texts have different encodings.
pub proof fn lemma_encode_injective(a: Seq<char>, b: Seq<char>)
    requires
        encode_utf8(a) == encode_utf8(b),
    ensures
        a == b,
{
    vstd::utf8::encode_utf8_decode_utf8(a);
    vstd::utf8::encode_utf8_decode_utf8(b);
}

pub proof fn lemma_text_lt_irreflexive(a: Seq<char>)
    ensures
        !text_lt(a, a),
{
    lemma_bytes_lt_irreflexive(encode_utf8(a));
}

pub proof fn lemma_text_lt_asymmetric(a: Seq<char>, b: Seq<char>)
    ensures
        !(text_lt(a, b) && text_lt(b, a)),
{
    lemma_bytes_lt_asymmetric(encode_utf8(a), encode_utf8(b));
}

pub proof fn lemma_text_lt_transitive(a: Seq<char>, b: Seq<char>, c: Seq<char>)
    requires
        text_lt(a, b),
        text_lt(b, c),
    ensures
        text_lt(a, c),
{
    lemma_bytes_lt_transitive(encode_utf8(a), encode_utf8(b), encode_utf8(c));
}

pub proof fn lemma_text_lt_total(a: Seq<char>, b: Seq<char>)
    requires
        a != b,
    ensures
        text_lt(a, b) || text_lt(b, a),
{
    if encode_utf8(a) == encode_utf8(b) {
        lemma_encode_injective(a, b);
    }
    lemma_bytes_lt_total(encode_utf8(a), encode_utf8(b));
}

/// Reports whether two pieces of text are the same.
pub fn same_text(a: &str, b: &str) -> (r: bool)
    ensures
        r == (a@ == b@),
{
    let x = a.as_bytes();
    let y = b.as_bytes();
    if x.len() != y.len() {
        return false;
    }
    let mut i: usize = 0;
    while i < x.len()
        invariant
            x@ == encode_utf8(a@),
            y@ == encode_utf8(b@),
            x@.len() == y@.len(),
            i <= x@.len(),
            x@.subrange(0, i as int) == y@.subrange(0, i as int),
        decreases x.len() - i,
    {
        if x[i] != y[i] {
            assert(x@[i as int] != y@[i as int]);
            return false;
        }
        assert(x@.subrange(0, i + 1) =~= x@.subrange(0, i as int).push(x@[i as int]));
        assert(y@.subrange(0, i + 1) =~= y@.subrange(0, i as int).push(y@[i as int]));
        i = i + 1;
    }
    assert(x@ =~= x@.subrange(0, i as int));
    assert(y@ =~= y@.subrange(0, i as int));
    proof {
        lemma_encode_injective(a@, b@);
    }
    true
}

/// Reports whether `a` sorts strictly before `b`.
pub fn text_less(a: &str, b: &str) -> (r: bool)
    ensures
        r == text_lt(a@, b@),
{
    let x = a.as_bytes();
    let y = b.as_bytes();
    let mut i: usize = 0;
    assert(x@.skip(0) =~= x@);
    assert(y@.skip(0) =~= y@);
    while i < x.len() && i < y.len()
        invariant
            x@ == encode_utf8(a@),
            y@ == encode_utf8(b@),
            i <= x@.len(),
            i <= y@.len(),
            bytes_lt(x@, y@) == bytes_lt(x@.skip(i as int), y@.skip(i as int)),
        decreases x.len() - i,
    {
        if x[i] < y[i] {
            assert(x@.skip(i as int)[0] == x@[i as int]);
            assert(y@.skip(i as int)[0] == y@[i as int]);
            return true;
        }
        if x[i] > y[i] {
            assert(x@.skip(i as int)[0] == x@[i as int]);
            assert(y@.skip(i as int)[0] == y@[i as int]);
            return false;
        }
        assert(x@.skip(i as int).drop_first() =~= x@.skip(i + 1));
        assert(y@.skip(i as int).drop_first() =~= y@.skip(i + 1));
        i = i + 1;
    }
    y.len() > i
}

} // verus!
