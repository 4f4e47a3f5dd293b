//! The values a store holds, and the redacted form in which they are shown.
use vstd::prelude::*;
use vstd::string::StringExecFns;

use crate::text::byte_len;

verus! {

/// A value held in the store.
pub struct Value(String);

impl View for Value {
    type V = Seq<char>;

    closed spec fn view(&self) -> Seq<char> {
        self.0@
    }
}

/// The character for a decimal digit.
pub open spec fn digit_char(d: nat) -> char
    recommends
        d < 10,
{
    ((48 + d) as u32) as char
}

/// The decimal representation of a number, without leading zeros.
pub open spec fn decimal(n: nat) -> Seq<char>
    decreases n,
{
    if n < 10 {
        seq![digit_char(n)]
    } else {
        decimal(n / 10).push(digit_char(n % 10))
    }
}

/// The number a string of decimal digits stands for, read from the left: each digit is worth ten
/// times the one after it.
pub open spec fn numeral_value(s: Seq<char>) -> int
    decreases s.len(),
{
    if s.len() == 0 {
        0
    } else {
        numeral_value(s.drop_last()) * 10 + (s.last() as u32 - 48)
    }
}

/// The shown size is the usual base-ten numeral of the number: at least one digit, every character
/// a digit from `0` to `9`, no leading zero, and read back in base ten it is the number itself.
pub proof fn law_decimal_is_the_numeral(n: nat)
    ensures
        decimal(n).len() > 0,
        forall|i: int| 0 <= i < decimal(n).len() ==> 48 <= #[trigger] decimal(n)[i] as u32 <= 57,
        n > 0 ==> decimal(n)[0] as u32 != 48,
        numeral_value(decimal(n)) == n,
    decreases n,
{
    if n >= 10 {
        let d = decimal(n / 10);
        law_decimal_is_the_numeral(n / 10);
        assert(decimal(n) == d.push(digit_char(n % 10)));
        assert(decimal(n).drop_last() =~= d);
        assert(decimal(n)[0] == d[0]);
        assert forall|i: int| 0 <= i < decimal(n).len() implies 48 <= #[trigger] decimal(n)[i] as u32 <= 57 by {
            if i < d.len() {
                assert(decimal(n)[i] == d[i]);
            }
        }
        assert(digit_char((n % 10) as nat) as u32 == 48 + n % 10);
        assert(numeral_value(decimal(n)) == numeral_value(d) * 10 + n % 10);
        assert(n == (n / 10) * 10 + n % 10);
    } else {
        assert(digit_char(n) as u32 == 48 + n);
        assert(decimal(n).drop_last() =~= Seq::<char>::empty());
        assert(numeral_value(Seq::<char>::empty()) == 0);
    }
}

/// How a value of `length` bytes is shown: its size, and nothing of its content.
pub open spec fn redaction(length: nat) -> Seq<char> {
    "Value(<redacted, "@ + decimal(length) + " bytes>)"@
}

/// The text of one decimal digit.
fn digit_str(d: usize) -> (r: &'static str)
    requires
        d < 10,
    ensures
        r@ == seq![digit_char(d as nat)],
{
    proof {
        reveal_strlit("0");
        reveal_strlit("1");
        reveal_strlit("2");
        reveal_strlit("3");
        reveal_strlit("4");
        reveal_strlit("5");
        reveal_strlit("6");
        reveal_strlit("7");
        reveal_strlit("8");
        reveal_strlit("9");
    }
    let r = match d {
        0 => "0",
        1 => "1",
        2 => "2",
        3 => "3",
        4 => "4",
        5 => "5",
        6 => "6",
        7 => "7",
        8 => "8",
        _ => "9",
    };
    assert(r@ =~= seq![digit_char(d as nat)]);
    r
}

/// Appends the decimal representation of `n`.
pub fn push_decimal(out: &mut String, n: usize)
    ensures
        final(out)@ == old(out)@ + decimal(n as nat),
    decreases n,
{
    if n >= 10 {
        push_decimal(out, n / 10);
    }
    out.append(digit_str(n % 10));
    assert(final(out)@ =~= old(out)@ + decimal(n as nat));
}

impl Value {
    /// Wraps a value. Any text will do: `minidb` does not look inside.
    pub fn new(value: &str) -> (r: Self)
        ensures
            r@ == value@,
    {
        Value(value.to_owned())
    }

    /// Borrows the value.
    pub fn as_str(&self) -> (r: &str)
        ensures
            r@ == self@,
    {
        self.0.as_str()
    }

    /// Consumes the wrapper, returning the value.
    pub fn into_inner(self) -> (r: String)
        ensures
            r@ == self@,
    {
        self.0
    }

    /// Shows the value the way it may appear in logs: `Value(<redacted, 7 bytes>)`.
    ///
    /// The length tells an empty value from a truncated one; the content is never shown.
    pub fn redacted(&self) -> (r: String)
        ensures
            r@ == redaction(byte_len(self@)),
    {
        let length = self.0.as_str().as_bytes().len();
        let mut out = String::new();
        out.append("Value(<redacted, ");
        push_decimal(&mut out, length);
        out.append(" bytes>)");
        proof {
            reveal_strlit("Value(<redacted, ");
            reveal_strlit(" bytes>)");
        }
        assert(out@ =~= redaction(byte_len(self@)));
        out
    }
}

} // verus!
