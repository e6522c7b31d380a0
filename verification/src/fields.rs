//! Reading text that people write: lists with separators, blanks, numbers.
use vstd::prelude::*;
use vstd::string::*;

use crate::judge::{decimal_value, is_digit};
use crate::text::{decimal, hex_digit};

verus! {

/// White space, as Unicode has it.
pub open spec fn is_white(c: char) -> bool {
    let n = c as int;
    ||| 0x9 <= n <= 0xD
    ||| n == 0x20
    ||| n == 0x85
    ||| n == 0xA0
    ||| n == 0x1680
    ||| 0x2000 <= n <= 0x200A
    ||| n == 0x2028
    ||| n == 0x2029
    ||| n == 0x202F
    ||| n == 0x205F
    ||| n == 0x3000
}

/// Whether a character is white space.
pub fn white(c: char) -> (r: bool)
    ensures
        r == is_white(c),
{
    let n: u32 = c as u32;
    (0x9 <= n && n <= 0xD) || n == 0x20 || n == 0x85 || n == 0xA0 || n == 0x1680 || (0x2000 <= n && n <= 0x200A) || n
        == 0x2028 || n == 0x2029 || n == 0x202F || n == 0x205F || n == 0x3000
}

/// What stands between the separators of a text, from its beginning to its end.
pub open spec fn pieces(text: Seq<char>, separator: char) -> Seq<Seq<char>>
    decreases text.len(),
{
    if text.len() == 0 {
        seq![Seq::empty()]
    } else {
        let rest = pieces(text.drop_last(), separator);
        if text.last() == separator {
            rest.push(Seq::empty())
        } else {
            rest.drop_last().push(rest.last().push(text.last()))
        }
    }
}

/// The characters of some texts.
pub open spec fn texts(list: Seq<&str>) -> Seq<Seq<char>> {
    list.map_values(|text: &str| text@)
}

/// Splits a text at its separators.
pub fn split<'a>(text: &'a str, separator: char) -> (r: Vec<&'a str>)
    ensures
        texts(r@) == pieces(text@, separator),
{
    let len: usize = text.unicode_len();
    let mut r: Vec<&'a str> = Vec::new();
    let mut start: usize = 0;
    let mut i: usize = 0;
    assert(text@.take(0) =~= Seq::<char>::empty());
    assert(pieces(text@.take(0), separator) =~= texts(r@).push(text@.subrange(0, 0)));
    while i < len
        invariant
            len == text@.len(),
            start <= i <= len,
            pieces(text@.take(i as int), separator) == texts(r@).push(text@.subrange(start as int, i as int)),
        decreases len - i,
    {
        let ghost done = texts(r@);
        let ghost current = text@.subrange(start as int, i as int);
        assert(text@.take(i + 1).drop_last() =~= text@.take(i as int));
        assert(done.push(current).drop_last() =~= done);
        if text.get_char(i) == separator {
            r.push(text.substring_char(start, i));
            start = i + 1;
            assert(texts(r@) =~= done.push(current));
            assert(text@.subrange(start as int, i + 1) =~= Seq::<char>::empty());
        } else {
            assert(text@.subrange(start as int, i + 1) =~= current.push(text@[i as int]));
        }
        i += 1;
    }
    assert(text@.take(i as int) =~= text@);
    let ghost done = texts(r@);
    r.push(text.substring_char(start, len));
    assert(texts(r@) =~= done.push(text@.subrange(start as int, len as int)));
    r
}

/// What follows a prefix of a text, if it has that prefix.
pub fn without_prefix<'a>(text: &'a str, prefix: &str) -> (r: Option<&'a str>)
    ensures
        match r {
            Some(rest) => prefix@.is_prefix_of(text@) && rest@ == text@.skip(prefix@.len() as int),
            None => !prefix@.is_prefix_of(text@),
        },
{
    let len: usize = text.unicode_len();
    let n: usize = prefix.unicode_len();
    if len < n {
        return None;
    }
    let mut i: usize = 0;
    while i < n
        invariant
            i <= n <= len,
            n == prefix@.len(),
            len == text@.len(),
            forall|j: int| 0 <= j < i ==> #[trigger] text@[j] == prefix@[j],
        decreases n - i,
    {
        if text.get_char(i) != prefix.get_char(i) {
            proof {
                if prefix@.is_prefix_of(text@) {
                    assert(text@.subrange(0, n as int)[i as int] == prefix@[i as int]);
                }
            }
            return None;
        }
        i += 1;
    }
    assert(prefix@ =~= text@.subrange(0, n as int));
    let rest = text.substring_char(n, len);
    assert(rest@ =~= text@.skip(n as int));
    Some(rest)
}

/// A text without the white space at its end.
pub open spec fn end_trimmed(text: Seq<char>) -> Seq<char>
    decreases text.len(),
{
    if text.len() > 0 && is_white(text.last()) {
        end_trimmed(text.drop_last())
    } else {
        text
    }
}

/// A text without the white space at its beginning.
pub open spec fn start_trimmed(text: Seq<char>) -> Seq<char>
    decreases text.len(),
{
    if text.len() > 0 && is_white(text[0]) {
        start_trimmed(text.drop_first())
    } else {
        text
    }
}

/// A text without the white space around it.
pub open spec fn trimmed(text: Seq<char>) -> Seq<char> {
    start_trimmed(end_trimmed(text))
}

/// A text without the white space around it.
pub fn trim<'a>(text: &'a str) -> (r: &'a str)
    ensures
        r@ == trimmed(text@),
{
    let mut end: usize = text.unicode_len();
    assert(text@.take(end as int) =~= text@);
    while end > 0 && white(text.get_char(end - 1))
        invariant
            end <= text@.len(),
            end_trimmed(text@) == end_trimmed(text@.take(end as int)),
        decreases end,
    {
        assert(text@.take(end as int).drop_last() =~= text@.take(end - 1));
        end = end - 1;
    }
    let ghost kept = text@.take(end as int);
    assert(end_trimmed(text@) == kept);
    let mut start: usize = 0;
    assert(kept.skip(0) =~= kept);
    while start < end && white(text.get_char(start))
        invariant
            start <= end <= text@.len(),
            kept == text@.take(end as int),
            start_trimmed(kept) == start_trimmed(kept.skip(start as int)),
        decreases end - start,
    {
        assert(kept.skip(start as int).drop_first() =~= kept.skip(start + 1));
        assert(kept.skip(start as int)[0] == text@[start as int]);
        start = start + 1;
    }
    proof {
        if start < end {
            assert(kept.skip(start as int)[0] == text@[start as int]);
        }
        assert(start_trimmed(kept) == kept.skip(start as int));
        assert(kept.skip(start as int) =~= text@.subrange(start as int, end as int));
    }
    text.substring_char(start, end)
}

/// Every character is a decimal digit.
pub open spec fn all_digits(text: Seq<char>) -> bool {
    forall|i: int| 0 <= i < text.len() ==> is_digit(#[trigger] text[i])
}

/// The number that decimal digits spell, with or without a plus sign before them.
pub open spec fn unsigned_value(text: Seq<char>) -> Option<int> {
    let digits = if text.len() > 0 && text[0] == '+' {
        text.skip(1)
    } else {
        text
    };
    if digits.len() > 0 && all_digits(digits) {
        Some(decimal_value(digits))
    } else {
        None
    }
}

/// The number that a text spells, if it is one that is no larger than the limit.
pub open spec fn number_upto(text: Seq<char>, limit: int) -> Option<int> {
    match unsigned_value(text) {
        Some(value) => if value <= limit {
            Some(value)
        } else {
            None
        },
        None => None,
    }
}

proof fn lemma_value_grows(digits: Seq<char>, n: int)
    requires
        all_digits(digits),
        0 <= n <= digits.len(),
    ensures
        0 <= decimal_value(digits.take(n)) <= decimal_value(digits),
    decreases digits.len(),
{
    if n < digits.len() {
        assert(digits.drop_last().take(n) =~= digits.take(n));
        lemma_value_grows(digits.drop_last(), n);
        assert(is_digit(digits.last()));
    } else {
        assert(digits.take(n) =~= digits);
        if digits.len() > 0 {
            assert(digits.drop_last().take(n - 1) =~= digits.drop_last());
            lemma_value_grows(digits.drop_last(), n - 1);
            assert(is_digit(digits.last()));
        }
    }
}

/// Reads a number of at most `limit`.
fn read_upto(text: &str, limit: u64) -> (r: Option<u64>)
    ensures
        match r {
            Some(value) => number_upto(text@, limit as int) == Some(value as int),
            None => number_upto(text@, limit as int) is None,
        },
{
    let len: usize = text.unicode_len();
    let start: usize = if len > 0 && text.get_char(0) == '+' {
        1
    } else {
        0
    };
    let ghost digits = text@.skip(start as int);
    assert(digits =~= if start == 1 {
        text@.skip(1)
    } else {
        text@
    });
    if start == len {
        return None;
    }
    let mut value: u64 = 0;
    let mut i: usize = start;
    assert(digits.take(0) =~= Seq::<char>::empty());
    while i < len
        invariant
            len == text@.len(),
            start <= i <= len,
            digits == text@.skip(start as int),
            digits.len() > 0,
            number_upto(text@, limit as int) == if all_digits(digits) && decimal_value(digits) <= limit {
                Some(decimal_value(digits))
            } else {
                None::<int>
            },
            all_digits(digits.take(i - start)),
            value == decimal_value(digits.take(i - start)),
            value <= limit,
        decreases len - i,
    {
        let c = text.get_char(i);
        let ghost at = i - start;
        assert(digits[at] == c);
        if !('0' <= c && c <= '9') {
            assert(!is_digit(digits[at]));
            return None;
        }
        let digit: u64 = c as u64 - '0' as u64;
        proof {
            assert(digits.take(at + 1).drop_last() =~= digits.take(at));
            assert(digits.take(at + 1).last() == c);
            assert(decimal_value(digits.take(at + 1)) == 10 * value + digit);
            if all_digits(digits) {
                lemma_value_grows(digits, at + 1);
            }
        }
        match value.checked_mul(10) {
            Some(shifted) => match shifted.checked_add(digit) {
                Some(next) if next <= limit => {
                    value = next;
                },
                _ => return None,
            },
            None => return None,
        }
        i += 1;
    }
    assert(digits.take(i - start) =~= digits);
    Some(value)
}

/// Reads a number.
pub fn parse_u64(text: &str) -> (r: Option<u64>)
    ensures
        match r {
            Some(value) => number_upto(text@, u64::MAX as int) == Some(value as int),
            None => number_upto(text@, u64::MAX as int) is None,
        },
{
    read_upto(text, u64::MAX)
}

/// Reads a number of 32 bits.
pub fn parse_u32(text: &str) -> (r: Option<u32>)
    ensures
        match r {
            Some(value) => number_upto(text@, u32::MAX as int) == Some(value as int),
            None => number_upto(text@, u32::MAX as int) is None,
        },
{
    match read_upto(text, u32::MAX as u64) {
        Some(value) => Some(value as u32),
        None => None,
    }
}

/// Reads a count.
pub fn parse_usize(text: &str) -> (r: Option<usize>)
    ensures
        match r {
            Some(value) => number_upto(text@, usize::MAX as int) == Some(value as int),
            None => number_upto(text@, usize::MAX as int) is None,
        },
{
    match read_upto(text, usize::MAX as u64) {
        Some(value) => Some(value as usize),
        None => None,
    }
}

/// What stands before the first separator is the first piece.
pub proof fn lemma_first_piece(first: Seq<char>, separator: char, rest: Seq<char>)
    requires
        !first.contains(separator),
    ensures
        pieces(first, separator) == seq![first],
        pieces(first.push(separator) + rest, separator)[0] == first,
        pieces(first.push(separator) + rest, separator).len() >= 2,
    decreases first.len() + rest.len(),
{
    lemma_one_piece(first, separator);
    let text = first.push(separator) + rest;
    if rest.len() == 0 {
        assert(text =~= first.push(separator));
        assert(text.drop_last() =~= first);
    } else {
        assert(text.drop_last() =~= first.push(separator) + rest.drop_last());
        lemma_first_piece(first, separator, rest.drop_last());
    }
}

proof fn lemma_one_piece(text: Seq<char>, separator: char)
    requires
        !text.contains(separator),
    ensures
        pieces(text, separator) == seq![text],
    decreases text.len(),
{
    if text.len() > 0 {
        assert forall|c: char| text.drop_last().contains(c) implies text.contains(c) by {
            let i = choose|i: int| 0 <= i < text.drop_last().len() && text.drop_last()[i] == c;
            assert(text[i] == c);
        }
        assert(text.contains(text.last()));
        lemma_one_piece(text.drop_last(), separator);
        assert(text.drop_last().push(text.last()) =~= text);
        assert(pieces(text, separator) =~= seq![text]);
    } else {
        assert(text =~= Seq::empty());
    }
}

/// A number that is written in decimal is read back as it was.
pub proof fn law_written_number_is_read(n: nat)
    ensures
        unsigned_value(decimal(n)) == Some(n as int),
        all_digits(decimal(n)),
        decimal(n).len() > 0,
    decreases n,
{
    lemma_decimal(n);
    assert(is_digit(decimal(n)[0]));
}

proof fn lemma_decimal(n: nat)
    ensures
        all_digits(decimal(n)),
        decimal(n).len() > 0,
        decimal_value(decimal(n)) == n,
    decreases n,
{
    let last = hex_digit((n % 10) as int);
    assert(is_digit(last));
    assert(last as int - '0' as int == n % 10);
    if n < 10 {
        assert(decimal(n) =~= seq![last]);
        assert(decimal(n).drop_last() =~= Seq::empty());
        assert(decimal_value(Seq::empty()) == 0);
    } else {
        lemma_decimal(n / 10);
        assert(decimal(n).drop_last() =~= decimal(n / 10));
        assert(n == 10 * (n / 10) + n % 10);
    }
}

proof fn lemma_start_trimmed(text: Seq<char>) -> (from: int)
    ensures
        0 <= from <= text.len(),
        start_trimmed(text) == text.skip(from),
        forall|k: int| 0 <= k < from ==> is_white(#[trigger] text[k]),
        from < text.len() ==> !is_white(text[from]),
    decreases text.len(),
{
    if text.len() > 0 && is_white(text[0]) {
        let rest = text.drop_first();
        let from = lemma_start_trimmed(rest);
        assert(rest.skip(from) =~= text.skip(from + 1));
        assert forall|k: int| 0 <= k < from + 1 implies is_white(#[trigger] text[k]) by {
            if k > 0 {
                assert(rest[k - 1] == text[k]);
            }
        }
        if from < rest.len() {
            assert(rest[from] == text[from + 1]);
        }
        from + 1
    } else {
        assert(text.skip(0) =~= text);
        0
    }
}

proof fn lemma_end_trimmed(text: Seq<char>) -> (upto: int)
    ensures
        0 <= upto <= text.len(),
        end_trimmed(text) == text.take(upto),
        forall|k: int| upto <= k < text.len() ==> is_white(#[trigger] text[k]),
        upto > 0 ==> !is_white(text[upto - 1]),
    decreases text.len(),
{
    if text.len() > 0 && is_white(text.last()) {
        let rest = text.drop_last();
        let upto = lemma_end_trimmed(rest);
        assert(rest.take(upto) =~= text.take(upto));
        assert forall|k: int| upto <= k < text.len() implies is_white(#[trigger] text[k]) by {
            if k < rest.len() {
                assert(rest[k] == text[k]);
            }
        }
        if upto > 0 {
            assert(rest[upto - 1] == text[upto - 1]);
        }
        upto
    } else {
        assert(text.take(text.len() as int) =~= text);
        text.len() as int
    }
}

/// Trimming takes white space off both ends and nothing else: what is left neither
/// begins nor ends with any.
pub proof fn law_trim_takes_only_white_ends(text: Seq<char>) -> (bounds: (int, int))
    ensures
        0 <= bounds.0 <= bounds.1 <= text.len(),
        trimmed(text) == text.subrange(bounds.0, bounds.1),
        forall|k: int| 0 <= k < bounds.0 || bounds.1 <= k < text.len() ==> is_white(#[trigger] text[k]),
        bounds.0 < bounds.1 ==> !is_white(text[bounds.0]) && !is_white(text[bounds.1 - 1]),
{
    let upto = lemma_end_trimmed(text);
    let cut = text.take(upto);
    let from = lemma_start_trimmed(cut);
    assert(cut.skip(from) =~= text.subrange(from, upto));
    assert forall|k: int| 0 <= k < from || upto <= k < text.len() implies is_white(#[trigger] text[k]) by {
        if k < from {
            assert(cut[k] == text[k]);
        }
    }
    if from < upto {
        assert(cut[from] == text[from]);
    }
    (from, upto)
}

/// Text is split at every separator: the pieces of two texts with a separator between
/// them are those of the one and then those of the other, and a text without one is a
/// piece by itself.
pub proof fn law_split_at_every_separator(one: Seq<char>, separator: char, other: Seq<char>)
    ensures
        pieces(one.push(separator) + other, separator) == pieces(one, separator) + pieces(other, separator),
        !one.contains(separator) ==> pieces(one, separator) == seq![one],
        pieces(other, separator).len() > 0,
    decreases other.len(),
{
    let both = one.push(separator) + other;
    if !one.contains(separator) {
        lemma_first_piece(one, separator, other);
    }
    if other.len() == 0 {
        assert(both =~= one.push(separator));
        assert(both.drop_last() =~= one);
        assert(pieces(one, separator).push(Seq::empty()) =~= pieces(one, separator) + pieces(other, separator));
    } else {
        let rest = other.drop_last();
        law_split_at_every_separator(one, separator, rest);
        assert(both.drop_last() =~= one.push(separator) + rest);
        assert(both.last() == other.last());
        let head = pieces(one, separator);
        let tail = pieces(rest, separator);
        if other.last() == separator {
            assert((head + tail).push(Seq::empty()) =~= head + tail.push(Seq::empty()));
        } else {
            assert((head + tail).last() == tail.last());
            assert((head + tail).drop_last() =~= head + tail.drop_last());
            assert((head + tail.drop_last()).push(tail.last().push(other.last())) =~= head + tail.drop_last().push(
                tail.last().push(other.last()),
            ));
        }
    }
}

/// A number is its decimal digits, with or without a plus sign before them, up to the
/// limit; anything else is none.
pub proof fn law_numbers_are_digits(text: Seq<char>, limit: int)
    ensures
        text.len() > 0 && (forall|i: int| 0 <= i < text.len() ==> '0' <= #[trigger] text[i] && text[i] <= '9') ==> {
            &&& decimal_value(text) <= limit ==> number_upto(text, limit) == Some(decimal_value(text)) && number_upto(
                seq!['+'] + text,
                limit,
            ) == Some(decimal_value(text))
            &&& decimal_value(text) > limit ==> number_upto(text, limit) is None
        },
        text.len() == 0 ==> number_upto(text, limit) is None,
        (exists|i: int| 0 < i < text.len() && !('0' <= #[trigger] text[i] && text[i] <= '9')) ==> number_upto(
            text,
            limit,
        ) is None,
{
    let signed = seq!['+'] + text;
    assert(signed.skip(1) =~= text);
    if text.len() > 0 && (forall|i: int| 0 <= i < text.len() ==> '0' <= #[trigger] text[i] && text[i] <= '9') {
        assert(all_digits(text));
        assert('0' <= text[0]);
    }
    if exists|i: int| 0 < i < text.len() && !('0' <= #[trigger] text[i] && text[i] <= '9') {
        let i = choose|i: int| 0 < i < text.len() && !('0' <= #[trigger] text[i] && text[i] <= '9');
        assert(!is_digit(text[i]));
        assert(text.skip(1)[i - 1] == text[i]);
        assert(!is_digit(text.skip(1)[i - 1]));
    }
}

/// White space is every character that Unicode gives the property of white space.
pub proof fn law_white_space_is_as_in_unicode(c: char)
    ensures
        is_white(c) <==> seq![
            9int,
            10,
            11,
            12,
            13,
            32,
            133,
            160,
            5760,
            8192,
            8193,
            8194,
            8195,
            8196,
            8197,
            8198,
            8199,
            8200,
            8201,
            8202,
            8232,
            8233,
            8239,
            8287,
            12288,
        ].contains(c as int),
{
    let all = seq![
        9int,
        10,
        11,
        12,
        13,
        32,
        133,
        160,
        5760,
        8192,
        8193,
        8194,
        8195,
        8196,
        8197,
        8198,
        8199,
        8200,
        8201,
        8202,
        8232,
        8233,
        8239,
        8287,
        12288,
    ];
    let n = c as int;
    if is_white(c) {
        let at = if n <= 13 {
            n - 9
        } else if n == 32 {
            5
        } else if n == 133 {
            6
        } else if n == 160 {
            7
        } else if n == 5760 {
            8
        } else if n <= 8202 {
            n - 8192 + 9
        } else if n == 8232 {
            20
        } else if n == 8233 {
            21
        } else if n == 8239 {
            22
        } else if n == 8287 {
            23
        } else {
            24
        };
        assert(all[at] == n);
    }
}

} // verus!
