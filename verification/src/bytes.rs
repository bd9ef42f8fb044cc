//! Searching, comparing and reading numbers in byte strings.
use vstd::prelude::*;

verus! {

/// Whether `byte` is an ASCII decimal digit.
pub open spec fn is_digit(byte: u8) -> bool {
    0x30 <= byte <= 0x39
}

/// The number that a string of decimal digits stands for.
pub open spec fn decimal_value(digits: Seq<u8>) -> nat
    decreases digits.len(),
{
    if digits.len() == 0 {
        0
    } else {
        decimal_value(digits.drop_last()) * 10 + (digits.last() - 0x30) as nat
    }
}

/// `text` without a leading plus sign.
pub open spec fn without_plus(text: Seq<u8>) -> Seq<u8> {
    if text.len() > 0 && text[0] == 0x2b {
        text.skip(1)
    } else {
        text
    }
}

/// The 16-bit coordinate that `text` stands for: at least one decimal digit, with an optional
/// plus sign in front and any number of leading zeros.
pub open spec fn coordinate(text: Seq<u8>) -> Option<u16> {
    let digits = without_plus(text);
    if digits.len() > 0 && (forall|i: int| 0 <= i < digits.len() ==> is_digit(#[trigger] digits[i]))
        && decimal_value(digits) <= u16::MAX {
        Some(decimal_value(digits) as u16)
    } else {
        None
    }
}

/// More digits never make a number smaller.
proof fn lemma_decimal_value_grows(digits: Seq<u8>, n: int)
    requires
        0 <= n <= digits.len(),
    ensures
        decimal_value(digits.take(n)) <= decimal_value(digits),
    decreases digits.len(),
{
    if n == digits.len() {
        assert(digits.take(n) == digits);
    } else {
        lemma_decimal_value_grows(digits.drop_last(), n);
        assert(digits.drop_last().take(n) == digits.take(n));
    }
}

/// A coordinate is written with digits and at most a leading plus sign.
pub proof fn lemma_coordinate_bytes(text: Seq<u8>)
    requires
        coordinate(text) is Some,
    ensures
        text.len() > 0,
        forall|i: int| 0 <= i < text.len() ==> is_digit(#[trigger] text[i]) || text[i] == 0x2b,
{
    let digits = without_plus(text);
    assert forall|i: int| 0 <= i < text.len() implies is_digit(#[trigger] text[i]) || text[i]
        == 0x2b by {
        if text[0] == 0x2b && i > 0 {
            assert(digits[i - 1] == text[i]);
        } else if text[0] != 0x2b {
            assert(digits[i] == text[i]);
        }
    }
}

/// Reads a 16-bit coordinate.
pub fn parse_coordinate(text: &[u8]) -> (value: Option<u16>)
    ensures
        value == coordinate(text@),
{
    let start: usize = if text.len() > 0 && text[0] == 0x2b {
        1
    } else {
        0
    };
    let ghost digits = without_plus(text@);
    assert(digits == text@.skip(start as int));
    if start == text.len() {
        return None;
    }
    let mut value: u32 = 0;
    let mut i: usize = start;
    assert(digits.take(0) == Seq::<u8>::empty());
    while i < text.len()
        invariant
            start <= i <= text.len(),
            start <= 1,
            digits == without_plus(text@),
            digits == text@.skip(start as int),
            value == decimal_value(digits.take(i - start)),
            value <= u16::MAX,
            forall|k: int| 0 <= k < i - start ==> is_digit(#[trigger] digits[k]),
        decreases text.len() - i,
    {
        let byte = text[i];
        assert(digits[i - start] == byte);
        if byte < 0x30 || byte > 0x39 {
            assert(!is_digit(digits[i - start]));
            return None;
        }
        proof {
            let longer = digits.take(i - start + 1);
            assert(longer.drop_last() == digits.take(i - start));
            assert(longer.last() == byte);
            lemma_decimal_value_grows(digits, i - start + 1);
        }
        value = value * 10 + (byte - 0x30) as u32;
        if value > 0xffff {
            return None;
        }
        i += 1;
    }
    assert(digits.take(i - start) == digits);
    Some(value as u16)
}

/// Whether two byte strings are the same.
pub fn same_bytes(left: &[u8], right: &[u8]) -> (same: bool)
    ensures
        same == (left@ == right@),
{
    if left.len() != right.len() {
        return false;
    }
    let mut i: usize = 0;
    while i < left.len()
        invariant
            left.len() == right.len(),
            i <= left.len(),
            forall|k: int| 0 <= k < i ==> left@[k] == right@[k],
        decreases left.len() - i,
    {
        if left[i] != right[i] {
            assert(left@[i as int] != right@[i as int]);
            return false;
        }
        i += 1;
    }
    assert(left@ =~= right@);
    true
}

/// The first place of `byte` in `text`.
pub fn find_byte(text: &[u8], byte: u8) -> (place: Option<usize>)
    ensures
        match place {
            Some(at) => {
                &&& at < text@.len()
                &&& text@[at as int] == byte
                &&& forall|k: int| 0 <= k < at ==> text@[k] != byte
            },
            None => forall|k: int| 0 <= k < text@.len() ==> text@[k] != byte,
        },
{
    let mut i: usize = 0;
    while i < text.len()
        invariant
            i <= text.len(),
            forall|k: int| 0 <= k < i ==> text@[k] != byte,
        decreases text.len() - i,
    {
        if text[i] == byte {
            return Some(i);
        }
        i += 1;
    }
    None
}

} // verus!
