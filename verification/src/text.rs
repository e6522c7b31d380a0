//! Text forms of numbers and byte strings, and comparison of string slices.
use vstd::prelude::*;
use vstd::string::*;

use crate::judge::decimal_value;

verus! {

/// The lower-case hexadecimal digit for `n`, `0 <= n < 16`.
pub open spec fn hex_digit(n: int) -> char {
    if n < 10 {
        ('0' as int + n) as char
    } else {
        ('a' as int + (n - 10)) as char
    }
}

/// Two lower-case hexadecimal digits per byte, most significant digit first.
pub open spec fn hex_chars(bytes: Seq<u8>) -> Seq<char> {
    Seq::new(
        2 * bytes.len(),
        |i: int| hex_digit(
            if i % 2 == 0 {
                bytes[i / 2] as int / 16
            } else {
                bytes[i / 2] as int % 16
            },
        ),
    )
}

/// The value of a hexadecimal digit, in either case, given as an ASCII byte.
pub open spec fn hex_value(byte: u8) -> Option<int> {
    if 48 <= byte <= 57 {
        Some(byte - 48)
    } else if 97 <= byte <= 102 {
        Some(byte - 97 + 10)
    } else if 65 <= byte <= 70 {
        Some(byte - 65 + 10)
    } else {
        None
    }
}

/// Decimal digits of `n` without leading zeros.
pub open spec fn decimal(n: nat) -> Seq<char>
    decreases n,
{
    if n < 10 {
        seq![hex_digit(n as int)]
    } else {
        decimal(n / 10).push(hex_digit((n % 10) as int))
    }
}

pub(crate) fn digit(n: u8) -> (r: &'static str)
    requires
        n < 16,
    ensures
        r@ == seq![hex_digit(n as int)],
{
    proof {
        reveal_strlit("0");
        reveal_strlit("1");
        reveal_strlit("2");
        reveal_strlit("3");
        reveal_strlit("4");
        reveal_strlit("5");
        reveal_strlit("6");
        reveal_strlit("7");
        reveal_strlit("8");
        reveal_strlit("9");
        reveal_strlit("a");
        reveal_strlit("b");
        reveal_strlit("c");
        reveal_strlit("d");
        reveal_strlit("e");
        reveal_strlit("f");
    }
    let r = match n {
        0 => "0",
        1 => "1",
        2 => "2",
        3 => "3",
        4 => "4",
        5 => "5",
        6 => "6",
        7 => "7",
        8 => "8",
        9 => "9",
        10 => "a",
        11 => "b",
        12 => "c",
        13 => "d",
        14 => "e",
        _ => "f",
    };
    assert(r@ =~= seq![hex_digit(n as int)]);
    r
}

/// Formats bytes as lower-case hexadecimal.
pub fn hex(bytes: &[u8]) -> (r: String)
    ensures
        r@ == hex_chars(bytes@),
{
    let mut out = String::new();
    let mut i: usize = 0;
    while i < bytes.len()
        invariant
            i <= bytes@.len(),
            out@ == hex_chars(bytes@.subrange(0, i as int)),
        decreases bytes@.len() - i,
    {
        let ghost before = out@;
        out.append(digit(bytes[i] / 16));
        out.append(digit(bytes[i] % 16));
        assert(out@ =~= hex_chars(bytes@.subrange(0, i + 1))) by {
            let next = bytes@.subrange(0, i + 1);
            let prev = bytes@.subrange(0, i as int);
            assert forall|k: int| 0 <= k < 2 * (i + 1) implies out@[k] == hex_chars(next)[k] by {
                if k < 2 * i {
                    assert(out@[k] == before[k]);
                    assert(prev[k / 2] == next[k / 2]);
                } else {
                    assert(k / 2 == i);
                }
            }
        }
        i += 1;
    }
    assert(bytes@.subrange(0, i as int) =~= bytes@);
    out
}

/// Formats a number in decimal.
pub fn decimal_string(n: u64) -> (r: String)
    ensures
        r@ == decimal(n as nat),
    decreases n,
{
    if n < 10 {
        let mut out = String::new();
        out.append(digit(n as u8));
        assert(out@ =~= decimal(n as nat));
        out
    } else {
        let mut out = decimal_string(n / 10);
        out.append(digit((n % 10) as u8));
        assert(out@ =~= decimal(n as nat));
        out
    }
}

/// The decimal form of a number that may be negative.
pub open spec fn signed_decimal(n: int) -> Seq<char> {
    if n < 0 {
        "-"@ + decimal((-n) as nat)
    } else {
        decimal(n as nat)
    }
}

/// Formats a number that may be negative in decimal.
pub fn signed_decimal_string(n: i64) -> (r: String)
    ensures
        r@ == signed_decimal(n as int),
{
    if n >= 0 {
        decimal_string(n as u64)
    } else {
        let mut out = "-".to_string();
        let size: u64 = (-(n + 1)) as u64 + 1;
        let digits = decimal_string(size);
        out.append(digits.as_str());
        out
    }
}

/// The decimal forms of some bytes, separated by commas and spaces.
pub open spec fn byte_items(bytes: Seq<u8>) -> Seq<char>
    decreases bytes.len(),
{
    if bytes.len() == 0 {
        Seq::empty()
    } else if bytes.len() == 1 {
        decimal(bytes[0] as nat)
    } else {
        byte_items(bytes.drop_last()) + ", "@ + decimal(bytes.last() as nat)
    }
}

/// A name with a list of bytes, as in `Name([1, 2])`.
pub open spec fn named_bytes(name: Seq<char>, bytes: Seq<u8>) -> Seq<char> {
    name + "(["@ + byte_items(bytes) + "])"@
}

/// Formats a name with a list of bytes.
pub fn named_bytes_string(name: &str, bytes: &[u8]) -> (r: String)
    ensures
        r@ == named_bytes(name@, bytes@),
{
    let mut items = String::new();
    let mut i: usize = 0;
    assert(bytes@.take(0) =~= Seq::<u8>::empty());
    while i < bytes.len()
        invariant
            i <= bytes@.len(),
            items@ == byte_items(bytes@.take(i as int)),
        decreases bytes@.len() - i,
    {
        assert(bytes@.take(i + 1).drop_last() =~= bytes@.take(i as int));
        if i > 0 {
            items.append(", ");
        }
        let number = decimal_string(bytes[i] as u64);
        items.append(number.as_str());
        assert(items@ =~= byte_items(bytes@.take(i + 1)));
        i += 1;
    }
    assert(bytes@.take(i as int) =~= bytes@);
    let mut out = name.to_string();
    out.append("([");
    out.append(items.as_str());
    out.append("])");
    out
}

/// The text of a string as a Rust literal: in double quotes, with what does not
/// print escaped.
pub uninterp spec fn debug_quoted(text: Seq<char>) -> Seq<char>;

/// Calls the standard library's `Debug` formatting of a string slice. The result
/// depends on the text alone; which characters are escaped is not stated.
#[verifier::external_body]
pub(crate) fn quoted(text: &str) -> (r: String)
    ensures
        r@ == debug_quoted(text@),
{
    format!("{:?}", text)
}

/// A character as a Rust literal: in single quotes, with what does not print
/// escaped.
pub uninterp spec fn debug_char(c: char) -> Seq<char>;

/// Calls the standard library's `Debug` formatting of a character. The result
/// depends on the character alone; which ones are escaped is not stated.
#[verifier::external_body]
pub(crate) fn quoted_char(c: char) -> (r: String)
    ensures
        r@ == debug_char(c),
{
    format!("{:?}", c)
}

/// A variant's name with one value behind it.
pub open spec fn tagged(name: Seq<char>, value: Seq<char>) -> Seq<char> {
    name + "("@ + value + ")"@
}

/// Formats a variant's name with one value behind it.
pub fn tagged_string(name: &str, value: &str) -> (r: String)
    ensures
        r@ == tagged(name@, value@),
{
    let mut out = name.to_string();
    out.append("(");
    out.append(value);
    out.append(")");
    out
}

/// Whether two string slices hold the same characters.
pub fn same_text(a: &str, b: &str) -> (r: bool)
    ensures
        r == (a@ == b@),
{
    a.to_string() == b.to_string()
}

/// Hexadecimal is written in lower case, two digits a byte, the higher first, and read
/// in either case.
pub proof fn law_hex_digits(bytes: Seq<u8>, i: int)
    requires
        0 <= i < bytes.len(),
    ensures
        hex_chars(bytes).len() == 2 * bytes.len(),
        ({
            let high = bytes[i] as int / 16;
            let low = bytes[i] as int % 16;
            &&& hex_chars(bytes)[2 * i] == "0123456789abcdef"@[high]
            &&& hex_chars(bytes)[2 * i + 1] == "0123456789abcdef"@[low]
            &&& hex_value("0123456789abcdef"@[high] as u8) == Some(high)
            &&& hex_value("0123456789abcdef"@[low] as u8) == Some(low)
            &&& hex_value("0123456789ABCDEF"@[low] as u8) == Some(low)
        }),
{
    reveal_strlit("0123456789abcdef");
    reveal_strlit("0123456789ABCDEF");
}

/// Two runs of bytes with the same hexadecimal text are the same.
pub proof fn law_hex_is_unambiguous(a: Seq<u8>, b: Seq<u8>)
    requires
        hex_chars(a) == hex_chars(b),
    ensures
        a == b,
{
    assert(hex_chars(a).len() == 2 * a.len());
    assert(hex_chars(b).len() == 2 * b.len());
    assert forall|i: int| 0 <= i < a.len() implies a[i] == b[i] by {
        assert(hex_chars(a)[2 * i] == hex_chars(b)[2 * i]);
        assert(hex_chars(a)[2 * i + 1] == hex_chars(b)[2 * i + 1]);
        law_hex_digits(a, i);
        law_hex_digits(b, i);
        assert(a[i] as int / 16 == b[i] as int / 16);
        assert(a[i] as int % 16 == b[i] as int % 16);
    }
    assert(a =~= b);
}

/// The text of a number is made of decimal digits, without a leading zero but for zero
/// itself, and reads back as that number.
pub proof fn law_decimal_is_read_back(n: nat)
    ensures
        decimal_value(decimal(n)) == n,
        decimal(n).len() > 0,
        forall|i: int| 0 <= i < decimal(n).len() ==> '0' <= #[trigger] decimal(n)[i] <= '9',
        decimal(n)[0] == '0' ==> n == 0,
    decreases n,
{
    reveal_with_fuel(decimal_value, 2);
    if n < 10 {
        assert(decimal(n).drop_last() =~= Seq::empty());
    } else {
        law_decimal_is_read_back(n / 10);
        assert(decimal(n).drop_last() =~= decimal(n / 10));
    }
}

/// The text says what the part says, word for word.
pub open spec fn says(text: Seq<char>, part: Seq<char>) -> bool {
    exists|at: int| #[trigger] says_at(text, part, at)
}

/// The part stands in the text at the place.
pub open spec fn says_at(text: Seq<char>, part: Seq<char>, at: int) -> bool {
    0 <= at && at + part.len() <= text.len() && text.subrange(at, at + part.len()) == part
}

/// What a text says it still says when more follows; and it says what it was put
/// together from.
pub proof fn lemma_says()
    ensures
        forall|a: Seq<char>, b: Seq<char>, part: Seq<char>| says(a, part) ==> #[trigger] says(a + b, part),
        forall|a: Seq<char>, b: Seq<char>, c: Seq<char>| #[trigger] says((a + b) + c, b + c),
        forall|a: Seq<char>, b: Seq<char>| #[trigger] says(a + b, b),
{
    assert forall|a: Seq<char>, b: Seq<char>, part: Seq<char>| says(a, part) implies #[trigger] says(a + b, part) by {
        let at = choose|at: int| #[trigger] says_at(a, part, at);
        assert((a + b).subrange(at, at + part.len()) =~= part);
        assert(says_at(a + b, part, at));
    }
    assert forall|a: Seq<char>, b: Seq<char>, c: Seq<char>| #[trigger] says((a + b) + c, b + c) by {
        assert(((a + b) + c).subrange(a.len() as int, (a.len() + (b + c).len()) as int) =~= b + c);
        assert(says_at((a + b) + c, b + c, a.len() as int));
    }
    assert forall|a: Seq<char>, b: Seq<char>| #[trigger] says(a + b, b) by {
        assert((a + b).subrange(a.len() as int, (a.len() + b.len()) as int) =~= b);
        assert(says_at(a + b, b, a.len() as int));
    }
}

/// What is tagged is the tag, with what it holds in brackets.
pub proof fn lemma_tagged(name: Seq<char>, value: Seq<char>)
    ensures
        name.is_prefix_of(tagged(name, value)),
        says(tagged(name, value), value),
{
    lemma_says();
    assert(name =~= tagged(name, value).take(name.len() as int));
    assert(says((name + "("@) + value, value));
}

} // verus!
