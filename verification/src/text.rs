//! Whole numbers in decimal, as the reports of other programs give them.
//!
//! A number is an optional sign and then one or more digits; nothing may
//! stand before, between or behind. Unsigned numbers take `+` as a sign,
//! signed numbers `+` or `-`. A number that its type cannot hold is no
//! number.

use vstd::prelude::*;

verus! {

/// The byte is a decimal digit.
pub open spec fn is_digit(byte: u8) -> bool {
    0x30 <= byte <= 0x39
}

/// Every byte is a decimal digit.
pub open spec fn all_digits(text: Seq<u8>) -> bool {
    forall|i: int| 0 <= i < text.len() ==> is_digit(#[trigger] text[i])
}

/// The number that a sequence of digits writes.
pub open spec fn digits_value(text: Seq<u8>) -> nat
    decreases text.len(),
{
    if text.len() == 0 {
        0
    } else {
        digits_value(text.drop_last()) * 10 + (text.last() - 0x30) as nat
    }
}

/// The text without a first byte `+`.
pub open spec fn without_plus(text: Seq<u8>) -> Seq<u8> {
    if text.len() > 0 && text[0] == 0x2b {
        text.drop_first()
    } else {
        text
    }
}

/// The text begins with `-`.
pub open spec fn is_negative(text: Seq<u8>) -> bool {
    text.len() > 0 && text[0] == 0x2d
}

/// The text without a first byte `+` or `-`.
pub open spec fn without_sign(text: Seq<u8>) -> Seq<u8> {
    if text.len() > 0 && (text[0] == 0x2b || text[0] == 0x2d) {
        text.drop_first()
    } else {
        text
    }
}

/// The unsigned number that the text writes, if it writes one.
pub open spec fn unsigned_of(text: Seq<u8>) -> Option<nat> {
    let digits = without_plus(text);
    if digits.len() > 0 && all_digits(digits) {
        Some(digits_value(digits))
    } else {
        None
    }
}

/// The signed number that the text writes, if it writes one.
pub open spec fn signed_of(text: Seq<u8>) -> Option<int> {
    let digits = without_sign(text);
    if digits.len() > 0 && all_digits(digits) {
        if is_negative(text) {
            Some(-(digits_value(digits) as int))
        } else {
            Some(digits_value(digits) as int)
        }
    } else {
        None
    }
}

/// More digits never write a smaller number: the number of the whole is
/// at least the number of any of its beginnings.
pub proof fn lemma_digits_grow(text: Seq<u8>, k: int)
    requires
        0 <= k <= text.len(),
        all_digits(text),
    ensures
        digits_value(text.take(k)) <= digits_value(text),
    decreases text.len() - k,
{
    if k < text.len() {
        assert(text.take(k + 1).drop_last() =~= text.take(k));
        assert(is_digit(text[k]));
        lemma_digits_grow(text, k + 1);
    } else {
        assert(text.take(k) =~= text);
    }
}

/// The number that the digits of `text` from `start` on write, where
/// they are digits, there is at least one, and the number is at most
/// `limit`.
fn parse_digits(text: &[u8], start: usize, limit: u64) -> (value: Option<u64>)
    requires
        start <= text@.len(),
    ensures
        value matches Some(v) ==> {
            &&& text@.len() > start
            &&& all_digits(text@.skip(start as int))
            &&& digits_value(text@.skip(start as int)) == v
            &&& v <= limit
        },
        value is None ==> {
            ||| text@.len() == start
            ||| !all_digits(text@.skip(start as int))
            ||| digits_value(text@.skip(start as int)) > limit
        },
{
    let ghost digits = text@.skip(start as int);
    if start == text.len() {
        return None;
    }
    let mut value: u64 = 0;
    let mut i: usize = start;
    assert(digits.take(0) =~= Seq::<u8>::empty());
    while i < text.len()
        invariant
            start <= i <= text.len(),
            digits == text@.skip(start as int),
            all_digits(digits.take(i - start)),
            value == digits_value(digits.take(i - start)),
            value <= limit,
        decreases text.len() - i,
    {
        let byte: u8 = text[i];
        assert(digits[i - start] == byte);
        if byte < 0x30 || byte > 0x39 {
            assert(!is_digit(digits[i - start]));
            return None;
        }
        let digit: u64 = (byte - 0x30) as u64;
        proof {
            assert(digits.take(i - start + 1).drop_last() =~= digits.take(i - start));
            assert(digits.take(i - start + 1).last() == byte);
            assert forall|k: int| 0 <= k < i - start + 1 implies is_digit(
                #[trigger] digits.take(i - start + 1)[k],
            ) by {
                if k < i - start {
                    assert(digits.take(i - start)[k] == digits[k]);
                }
            }
        }
        if digit > limit || value > (limit - digit) / 10 {
            proof {
                assert(digits_value(digits.take(i - start + 1)) > limit);
                if all_digits(digits) {
                    lemma_digits_grow(digits, i - start + 1);
                }
            }
            return None;
        }
        value = value * 10 + digit;
        i += 1;
    }
    assert(digits.take(i - start) =~= digits);
    Some(value)
}

/// The unsigned number that the text writes: an optional `+` and then one
/// or more digits. None where the text is anything else, or writes a
/// number above the largest `u64`.
pub fn parse_u64(text: &[u8]) -> (value: Option<u64>)
    ensures
        value matches Some(v) ==> unsigned_of(text@) == Some(v as nat),
        value is None <==> (unsigned_of(text@) matches Some(n) ==> n > u64::MAX),
{
    let start: usize = if text.len() > 0 && text[0] == 0x2b {
        1
    } else {
        0
    };
    assert(text@.skip(start as int) =~= without_plus(text@));
    parse_digits(text, start, u64::MAX)
}

/// The signed number that the text writes: an optional `+` or `-` and then
/// one or more digits. None where the text is anything else, or writes a
/// number that an `i32` cannot hold.
pub fn parse_i32(text: &[u8]) -> (value: Option<i32>)
    ensures
        value matches Some(v) ==> signed_of(text@) == Some(v as int),
        value is None <==> (signed_of(text@) matches Some(n) ==> n < i32::MIN || n > i32::MAX),
{
    let negative: bool = text.len() > 0 && text[0] == 0x2d;
    let start: usize = if text.len() > 0 && (text[0] == 0x2b || text[0] == 0x2d) {
        1
    } else {
        0
    };
    assert(text@.skip(start as int) =~= without_sign(text@));
    if negative {
        match parse_digits(text, start, 0x8000_0000) {
            Some(magnitude) => Some((-(magnitude as i64)) as i32),
            None => None,
        }
    } else {
        match parse_digits(text, start, 0x7fff_ffff) {
            Some(magnitude) => Some(magnitude as i32),
            None => None,
        }
    }
}

} // verus!
