//! The rules every bucket name and key obeys, and the error that reports the first one broken.
//!
//! A name is valid when it is not empty, at most [`MAX_NAME_LENGTH`] bytes long, and made up
//! exclusively of ASCII alphanumerics and `-`, `_`, `.`, `/`. The rules are checked in that order and
//! the first violation is reported.
use vstd::prelude::*;

use crate::table::Named;
use crate::text::byte_len;

verus! {

/// The longest name `minidb` stores, in bytes.
pub const MAX_NAME_LENGTH: usize = 64;

/// What can go wrong when parsing a bucket name or a key.
#[derive(Debug, PartialEq, Eq, Structural)]
pub enum NameError {
    Empty,
    TooLong { length: usize },
    InvalidCharacter { character: char, index: usize },
}

/// A character a name may contain.
pub open spec fn is_name_char(c: char) -> bool {
    ||| ('0' <= c && c <= '9')
    ||| ('a' <= c && c <= 'z')
    ||| ('A' <= c && c <= 'Z')
    ||| c == '-'
    ||| c == '_'
    ||| c == '.'
    ||| c == '/'
}

/// A character may stand in a name exactly when it is an ASCII digit, an ASCII letter, or one of
/// `-`, `.`, `/` and `_`: by code point, 48 to 57, 65 to 90, 97 to 122, or 45, 46, 47 and 95.
pub proof fn law_name_chars(c: char)
    ensures
        is_name_char(c) <==> {
            let x = c as u32;
            ||| 48 <= x <= 57
            ||| 65 <= x <= 90
            ||| 97 <= x <= 122
            ||| x == 45 || x == 46 || x == 47 || x == 95
        },
{
}

/// `i` is the position of the first character of `s` that a name may not contain.
pub open spec fn is_first_invalid(s: Seq<char>, i: int) -> bool {
    &&& 0 <= i < s.len()
    &&& !is_name_char(s[i])
    &&& forall|j: int| 0 <= j < i ==> is_name_char(#[trigger] s[j])
}

/// The outcome of checking `s` against the naming rules: the first rule it breaks, or `s` itself.
///
/// The reported index of an invalid character is its byte offset in the UTF-8 encoding.
pub open spec fn check_name(s: Seq<char>) -> Result<Seq<char>, NameError> {
    if s.len() == 0 {
        Err(NameError::Empty)
    } else if byte_len(s) > MAX_NAME_LENGTH {
        Err(NameError::TooLong { length: byte_len(s) as usize })
    } else if exists|i: int| is_first_invalid(s, i) {
        let i = choose|i: int| is_first_invalid(s, i);
        Err(NameError::InvalidCharacter { character: s[i], index: byte_len(s.take(i)) as usize })
    } else {
        Ok(s)
    }
}

/// A piece of text that passes every naming rule.
pub open spec fn is_valid_name(s: Seq<char>) -> bool {
    check_name(s) is Ok
}

/// A valid name is made of name characters only, all of them ASCII, so each takes one byte.
pub proof fn law_valid_names_are_ascii(s: Seq<char>)
    requires
        is_valid_name(s),
    ensures
        vstd::utf8::is_ascii_chars(s),
        forall|i: int| 0 <= i < s.len() ==> is_name_char(#[trigger] s[i]),
        byte_len(s) == s.len(),
{
    if exists|i: int| 0 <= i < s.len() && !is_name_char(s[i]) {
        lemma_first_invalid_exists(s);
    }
    vstd::utf8::is_ascii_chars_encode_utf8(s);
}

/// Some character breaks the rules exactly when a first one does.
proof fn lemma_first_invalid_exists(s: Seq<char>)
    requires
        exists|i: int| 0 <= i < s.len() && !is_name_char(#[trigger] s[i]),
    ensures
        exists|i: int| is_first_invalid(s, i),
    decreases s.len(),
{
    let k = choose|i: int| 0 <= i < s.len() && !is_name_char(#[trigger] s[i]);
    if exists|i: int| 0 <= i < k && !is_name_char(#[trigger] s[i]) {
        let i0 = choose|i: int| 0 <= i < k && !is_name_char(#[trigger] s[i]);
        assert(s.take(k)[i0] == s[i0]);
        lemma_first_invalid_exists(s.take(k));
        let i = choose|i: int| is_first_invalid(s.take(k), i);
        assert(s.take(k)[i] == s[i]);
        assert forall|j: int| 0 <= j < i implies is_name_char(#[trigger] s[j]) by {
            assert(s.take(k)[j] == s[j]);
        }
        assert(is_first_invalid(s, i));
    } else {
        assert(is_first_invalid(s, k));
    }
}

/// A prefix made of name characters is encoded in one byte per character.
proof fn lemma_name_prefix_bytes(s: Seq<char>, i: int)
    requires
        0 <= i <= s.len(),
        forall|j: int| 0 <= j < i ==> is_name_char(#[trigger] s[j]),
    ensures
        byte_len(s.take(i)) == i,
{
    assert(vstd::utf8::is_ascii_chars(s.take(i)));
    vstd::utf8::is_ascii_chars_encode_utf8(s.take(i));
}

/// Reports whether a name may contain `c`.
pub fn is_valid_char(c: char) -> (r: bool)
    ensures
        r == is_name_char(c),
{
    ('0' <= c && c <= '9') || ('a' <= c && c <= 'z') || ('A' <= c && c <= 'Z') || c == '-' || c
        == '_' || c == '.' || c == '/'
}

/// Checks `raw` against the naming rules, returning an owned copy when it passes.
pub fn parse_name(raw: &str) -> (r: Result<String, NameError>)
    ensures
        match check_name(raw@) {
            Ok(s) => r matches Ok(name) && name@ == s,
            Err(e) => r == Err::<String, NameError>(e),
        },
{
    broadcast use vstd::string::axiom_spec_iter;

    if raw.is_empty() {
        return Err(NameError::Empty);
    }
    let length = raw.as_bytes().len();
    if length > MAX_NAME_LENGTH {
        return Err(NameError::TooLong { length });
    }
    let ghost s = raw@;
    proof {
        crate::text::lemma_byte_len_at_least_len(s);
    }
    let mut index: usize = 0;
    for c in it: raw.chars()
        invariant
            s == raw@,
            it.seq() == s,
            index == it.index(),
            index <= s.len(),
            s.len() > 0,
            byte_len(s) <= MAX_NAME_LENGTH,
            s.len() <= MAX_NAME_LENGTH,
            forall|j: int| 0 <= j < index ==> is_name_char(#[trigger] s[j]),
    {
        if !is_valid_char(c) {
            proof {
                assert(is_first_invalid(s, index as int));
                lemma_name_prefix_bytes(s, index as int);
            }
            return Err(NameError::InvalidCharacter { character: c, index });
        }
        proof {
            lemma_name_prefix_bytes(s, index + 1);
        }
        index = index + 1;
    }
    proof {
        if exists|i: int| is_first_invalid(s, i) {
            let i = choose|i: int| is_first_invalid(s, i);
            assert(is_name_char(s[i]));
        }
    }
    Ok(raw.to_owned())
}

/// The name of a bucket.
///
/// The only way to obtain one is [`Bucket::parse`], so every `Bucket` holds a valid name.
#[derive(Debug, PartialEq, Eq, PartialOrd, Ord, Hash)]
pub struct Bucket(String);

impl View for Bucket {
    type V = Seq<char>;

    closed spec fn view(&self) -> Seq<char> {
        self.0@
    }
}

impl Bucket {
    #[verifier::type_invariant]
    spec fn holds_valid_name(&self) -> bool {
        is_valid_name(self.0@)
    }

    /// Parses a bucket name, rejecting anything `minidb` cannot store.
    pub fn parse(raw: &str) -> (r: Result<Self, NameError>)
        ensures
            match check_name(raw@) {
                Ok(s) => r matches Ok(b) && b@ == s,
                Err(e) => r == Err::<Self, NameError>(e),
            },
    {
        match parse_name(raw) {
            Ok(name) => Ok(Bucket(name)),
            Err(e) => Err(e),
        }
    }

    /// Borrows the bucket name.
    pub fn as_str(&self) -> (r: &str)
        ensures
            r@ == self@,
            is_valid_name(r@),
    {
        proof {
            use_type_invariant(self);
        }
        self.0.as_str()
    }

    /// Consumes the bucket name, returning the wrapped `String`.
    pub fn into_inner(self) -> (r: String)
        ensures
            r@ == self@,
            is_valid_name(r@),
    {
        proof {
            use_type_invariant(&self);
        }
        self.0
    }
}

impl Clone for Bucket {
    fn clone(&self) -> (r: Self)
        ensures
            r@ == self@,
    {
        proof {
            use_type_invariant(self);
        }
        Bucket(self.0.clone())
    }
}

impl Named for Bucket {
    open spec fn name(&self) -> Seq<char> {
        self@
    }

    fn name_str(&self) -> (r: &str) {
        self.as_str()
    }
}

/// The name of a value within a bucket.
///
/// The only ways to obtain one are [`Key::parse`] and `Key::try_from`, so every `Key` holds a valid
/// name.
#[derive(Debug, PartialEq, Eq, PartialOrd, Ord, Hash)]
pub struct Key(String);

impl View for Key {
    type V = Seq<char>;

    closed spec fn view(&self) -> Seq<char> {
        self.0@
    }
}

impl Key {
    #[verifier::type_invariant]
    spec fn holds_valid_name(&self) -> bool {
        is_valid_name(self.0@)
    }

    /// Parses a key, rejecting anything `minidb` cannot store.
    pub fn parse(raw: &str) -> (r: Result<Self, NameError>)
        ensures
            match check_name(raw@) {
                Ok(s) => r matches Ok(k) && k@ == s,
                Err(e) => r == Err::<Self, NameError>(e),
            },
    {
        match parse_name(raw) {
            Ok(name) => Ok(Key(name)),
            Err(e) => Err(e),
        }
    }

    /// Borrows the key.
    pub fn as_str(&self) -> (r: &str)
        ensures
            r@ == self@,
            is_valid_name(r@),
    {
        proof {
            use_type_invariant(self);
        }
        self.0.as_str()
    }

    /// Consumes the key, returning the wrapped `String`.
    pub fn into_inner(self) -> (r: String)
        ensures
            r@ == self@,
            is_valid_name(r@),
    {
        proof {
            use_type_invariant(&self);
        }
        self.0
    }
}

impl Clone for Key {
    fn clone(&self) -> (r: Self)
        ensures
            r@ == self@,
    {
        proof {
            use_type_invariant(self);
        }
        Key(self.0.clone())
    }
}

impl Named for Key {
    open spec fn name(&self) -> Seq<char> {
        self@
    }

    fn name_str(&self) -> (r: &str) {
        self.as_str()
    }
}

impl TryFrom<&str> for Key {
    type Error = NameError;

    /// Parses a key: the same check as [`Key::parse`], with the same error.
    fn try_from(raw: &str) -> (r: Result<Self, Self::Error>)
        ensures
            match check_name(raw@) {
                Ok(s) => r matches Ok(k) && k@ == s,
                Err(e) => r == Err::<Self, NameError>(e),
            },
    {
        Self::parse(raw)
    }
}

impl vstd::std_specs::convert::TryFromSpecImpl<&str> for Key {
    open spec fn obeys_try_from_spec() -> bool {
        false
    }

    open spec fn try_from_spec(v: &str) -> Result<Self, Self::Error> {
        vstd::pervasive::arbitrary()
    }
}

} // verus!
