//! Text as its UTF-8 bytes: cutting at a separator, comparing, and reading
//! decimal numbers.

use vstd::prelude::*;
use vstd::string::StringSliceAdditionalSpecFns;
use vstd::utf8::{
    encode_utf8_valid_utf8, is_char_boundary, is_char_boundary_iff_not_is_continuation_byte,
    is_char_boundary_start_end_of_seq, valid_utf8,
};

verus! {

/// Where `separator` stands first in `bytes`, or their length if nowhere.
pub open spec fn find(bytes: Seq<u8>, separator: u8) -> int
    decreases bytes.len(),
{
    if bytes.len() == 0 || bytes[0] == separator {
        0
    } else {
        1 + find(bytes.drop_first(), separator)
    }
}

/// The pieces between the separators, in their order: one more than there
/// are separators.
pub open spec fn split(bytes: Seq<u8>, separator: u8) -> Seq<Seq<u8>>
    decreases bytes.len(),
{
    let at = find(bytes, separator);
    if 0 <= at < bytes.len() {
        seq![bytes.subrange(0, at)] + split(bytes.subrange(at + 1, bytes.len() as int), separator)
    } else {
        seq![bytes]
    }
}

/// `find` is the first index at which the separator stands.
pub proof fn lemma_find(bytes: Seq<u8>, separator: u8, at: int)
    requires
        0 <= at <= bytes.len(),
        forall|k: int| 0 <= k < at ==> bytes[k] != separator,
        at < bytes.len() ==> bytes[at] == separator,
    ensures
        find(bytes, separator) == at,
    decreases bytes.len(),
{
    if bytes.len() == 0 || bytes[0] == separator {
    } else {
        let rest = bytes.drop_first();
        assert forall|k: int| 0 <= k < at - 1 implies rest[k] != separator by {
            assert(rest[k] == bytes[k + 1]);
        }
        lemma_find(rest, separator, at - 1);
    }
}

/// `find` lies within the bytes, with no separator in front of it.
pub proof fn lemma_find_within(bytes: Seq<u8>, separator: u8)
    ensures
        0 <= find(bytes, separator) <= bytes.len(),
        find(bytes, separator) < bytes.len() ==> bytes[find(bytes, separator)] == separator,
        forall|k: int| 0 <= k < find(bytes, separator) ==> bytes[k] != separator,
    decreases bytes.len(),
{
    if bytes.len() == 0 || bytes[0] == separator {
    } else {
        let rest = bytes.drop_first();
        lemma_find_within(rest, separator);
        assert forall|k: int| 0 <= k < find(bytes, separator) implies bytes[k] != separator by {
            if k > 0 {
                assert(bytes[k] == rest[k - 1]);
            }
        }
    }
}

/// Cuts the text at the first `separator`: what stands in front of it, and
/// what stands behind it if it is there at all.
pub fn split_once<'a>(text: &'a str, separator: u8) -> (parts: (&'a str, Option<&'a str>))
    requires
        separator < 0x80,
    ensures
        ({
            let bytes = text.spec_bytes();
            let at = find(bytes, separator);
            &&& 0 <= at <= bytes.len()
            &&& parts.0.spec_bytes() == bytes.subrange(0, at)
            &&& parts.1 is Some <==> at < bytes.len()
            &&& parts.1 is Some ==> parts.1->0.spec_bytes() == bytes.subrange(
                at + 1,
                bytes.len() as int,
            )
        }),
{
    let bytes = text.as_bytes();
    let n: usize = bytes.len();
    let mut at: usize = 0;
    while at < n && bytes[at] != separator
        invariant
            at <= n,
            n == bytes@.len(),
            forall|k: int| 0 <= k < at ==> bytes@[k] != separator,
        decreases n - at,
    {
        at += 1;
    }
    proof {
        lemma_find(bytes@, separator, at as int);
    }
    if at == n {
        assert(bytes@.subrange(0, at as int) =~= bytes@);
        (text, None)
    } else {
        proof {
            encode_utf8_valid_utf8(text@);
            is_char_boundary_iff_not_is_continuation_byte(text.spec_bytes(), at as int);
        }
        let (front, behind) = text.split_at(at);
        proof {
            encode_utf8_valid_utf8(behind@);
            let rest = behind.spec_bytes();
            assert(rest[0] == bytes@[at as int]);
            if rest.len() == 1 {
                is_char_boundary_start_end_of_seq(rest);
            } else {
                lemma_second_byte_is_boundary(rest);
            }
        }
        let (_, back) = behind.split_at(1);
        assert(back.spec_bytes() =~= bytes@.subrange(at + 1, n as int));
        (front, Some(back))
    }
}

/// Behind a first byte that is a character of its own a new character starts.
proof fn lemma_second_byte_is_boundary(bytes: Seq<u8>)
    requires
        valid_utf8(bytes),
        bytes.len() > 1,
        bytes[0] < 0x80,
    ensures
        is_char_boundary(bytes, 1),
{
    reveal_with_fuel(is_char_boundary, 2);
    reveal_with_fuel(valid_utf8, 2);
}

/// Whether two texts are the same, byte for byte.
pub fn same_text(left: &str, right: &str) -> (same: bool)
    ensures
        same == (left.spec_bytes() == right.spec_bytes()),
{
    let a = left.as_bytes();
    let b = right.as_bytes();
    if a.len() != b.len() {
        return false;
    }
    let n: usize = a.len();
    let mut i: usize = 0;
    while i < n
        invariant
            i <= n,
            n == a@.len(),
            n == b@.len(),
            a@ == left.spec_bytes(),
            b@ == right.spec_bytes(),
            forall|k: int| 0 <= k < i ==> a@[k] == b@[k],
        decreases n - i,
    {
        if a[i] != b[i] {
            return false;
        }
        i += 1;
    }
    assert(a@ =~= b@);
    true
}

/// Whether the byte is one of the digits `0` to `9`.
pub open spec fn is_digit(byte: u8) -> bool {
    0x30 <= byte <= 0x39
}

/// Whether all the bytes are digits.
pub open spec fn all_digits(bytes: Seq<u8>) -> bool {
    forall|i: int| 0 <= i < bytes.len() ==> is_digit(#[trigger] bytes[i])
}

/// The number that the digits write in base ten.
pub open spec fn digits_value(digits: Seq<u8>) -> nat
    decreases digits.len(),
{
    if digits.len() == 0 {
        0
    } else {
        digits_value(digits.drop_last()) * 10 + (digits.last() - 0x30) as nat
    }
}

/// The digits of a number: the text without a `+` in front.
pub open spec fn unsigned_digits(text: Seq<u8>) -> Seq<u8> {
    if text.len() > 0 && text[0] == 0x2b {
        text.drop_first()
    } else {
        text
    }
}

/// The number that `text` writes, if it is one of at most `max`: an optional
/// `+` and then digits, at least one, and nothing else.
pub open spec fn decimal(text: Seq<u8>, max: nat) -> Option<nat> {
    let digits = unsigned_digits(text);
    if digits.len() > 0 && all_digits(digits) && digits_value(digits) <= max {
        Some(digits_value(digits))
    } else {
        None
    }
}

/// More digits do not make a number smaller.
pub proof fn lemma_digits_grow(digits: Seq<u8>, count: int)
    requires
        all_digits(digits),
        0 <= count <= digits.len(),
    ensures
        digits_value(digits.take(count)) <= digits_value(digits),
    decreases digits.len(),
{
    if count == digits.len() {
        assert(digits.take(count) =~= digits);
    } else {
        let front = digits.drop_last();
        assert(front.take(count) =~= digits.take(count));
        assert forall|i: int| 0 <= i < front.len() implies is_digit(#[trigger] front[i]) by {
            assert(front[i] == digits[i]);
        }
        lemma_digits_grow(front, count);
        assert(is_digit(digits[digits.len() - 1]));
    }
}

/// Reads a number of at most `max`.
pub fn parse_decimal(text: &str, max: u64) -> (number: Option<u64>)
    ensures
        match number {
            Some(value) => decimal(text.spec_bytes(), max as nat) == Some(value as nat),
            None => decimal(text.spec_bytes(), max as nat) is None,
        },
{
    let bytes = text.as_bytes();
    let n: usize = bytes.len();
    let start: usize = if n > 0 && bytes[0] == 0x2b {
        1
    } else {
        0
    };
    let ghost digits = unsigned_digits(bytes@);
    assert(digits =~= bytes@.subrange(start as int, n as int));
    if start == n {
        return None;
    }
    let mut value: u64 = 0;
    let mut i: usize = start;
    while i < n
        invariant
            start <= i <= n,
            n == bytes@.len(),
            bytes@ == text.spec_bytes(),
            digits == unsigned_digits(bytes@),
            digits == bytes@.subrange(start as int, n as int),
            all_digits(digits.take(i - start)),
            value == digits_value(digits.take(i - start)),
            value <= max,
        decreases n - i,
    {
        let byte: u8 = bytes[i];
        let ghost upto = digits.take(i - start + 1);
        proof {
            assert(upto.drop_last() =~= digits.take(i - start));
            assert(upto.last() == byte);
        }
        if byte < 0x30 || byte > 0x39 {
            assert(!is_digit(digits[i - start]));
            return None;
        }
        let digit: u64 = (byte - 0x30) as u64;
        if digit > max || value > (max - digit) / 10 {
            proof {
                assert(digits_value(upto) > max);
                if all_digits(digits) {
                    lemma_digits_grow(digits, i - start + 1);
                }
            }
            return None;
        }
        value = value * 10 + digit;
        i += 1;
        assert forall|k: int| 0 <= k < upto.len() implies is_digit(#[trigger] upto[k]) by {
            if k < upto.len() - 1 {
                assert(upto[k] == digits.take(i - start - 1)[k]);
            }
        }
    }
    assert(digits.take(n - start) =~= digits);
    Some(value)
}

} // verus!
