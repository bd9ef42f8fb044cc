//! What holds of the coordinates that byte strings stand for.
use vstd::prelude::*;

verus! {

/// A single digit stands for its value. No other single byte is a coordinate, and neither is the
/// empty text.
pub proof fn one_digit_is_its_value(byte: u8)
    ensures
        0x30 <= byte <= 0x39 ==> crate::bytes::coordinate(seq![byte]) == Some((byte - 0x30) as u16),
        byte < 0x30 || byte > 0x39 ==> crate::bytes::coordinate(seq![byte]) is None,
        crate::bytes::coordinate(Seq::empty()) is None,
{
    reveal_with_fuel(crate::bytes::decimal_value, 2);
    assert(seq![byte].drop_last() == Seq::<u8>::empty());
    assert(seq![byte].last() == byte);
    if byte == 0x2b {
        assert(crate::bytes::without_plus(seq![byte]) == Seq::<u8>::empty());
    } else {
        assert(crate::bytes::without_plus(seq![byte]) == seq![byte]);
        assert(seq![byte][0] == byte);
        if byte < 0x30 || byte > 0x39 {
            assert(!crate::bytes::is_digit(seq![byte][0]));
        }
    }
}

/// Behind a coordinate, a digit moves all others up by one place, as long as the number still fits
/// in 16 bits; a number that does not is no coordinate. Any byte but a digit spoils it.
pub proof fn another_digit_moves_the_others_up(text: Seq<u8>, byte: u8)
    requires
        crate::bytes::coordinate(text) is Some,
    ensures
        ({
            let longer = crate::bytes::coordinate(text.push(byte));
            let value = crate::bytes::coordinate(text)->0 * 10 + (byte - 0x30);
            if 0x30 <= byte <= 0x39 && value <= 65535 {
                longer is Some && longer->0 == value
            } else {
                longer is None
            }
        }),
{
    let digits = crate::bytes::without_plus(text);
    let longer = crate::bytes::without_plus(text.push(byte));
    assert(longer == digits.push(byte));
    assert(longer.drop_last() == digits);
    assert(longer.last() == byte);
    assert forall|i: int| 0 <= i < digits.len() implies crate::bytes::is_digit(
        #[trigger] longer[i],
    ) by {
        assert(longer[i] == digits[i]);
    }
    if !(0x30 <= byte <= 0x39) {
        assert(!crate::bytes::is_digit(longer[digits.len() as int]));
    }
}

/// A text that is no coordinate does not become one by what follows, unless nothing but a plus sign
/// stands in front.
pub proof fn nothing_behind_mends_a_coordinate(text: Seq<u8>, byte: u8)
    requires
        crate::bytes::coordinate(text) is None,
        text.len() > 0,
        text != seq![0x2bu8],
    ensures
        crate::bytes::coordinate(text.push(byte)) is None,
{
    let digits = crate::bytes::without_plus(text);
    let longer = crate::bytes::without_plus(text.push(byte));
    assert(digits.len() > 0) by {
        if digits.len() == 0 {
            assert(text == seq![0x2bu8]);
        }
    }
    assert(longer == digits.push(byte));
    assert(longer.drop_last() == digits);
    if forall|i: int| 0 <= i < digits.len() ==> crate::bytes::is_digit(#[trigger] digits[i]) {
        assert(crate::bytes::decimal_value(longer) >= crate::bytes::decimal_value(digits));
    } else {
        let i = choose|i: int|
            0 <= i < digits.len() && !crate::bytes::is_digit(#[trigger] digits[i]);
        assert(longer[i] == digits[i]);
        assert(!crate::bytes::is_digit(longer[i]));
    }
}

/// A plus sign in front of a text changes nothing of what it stands for; two are none.
pub proof fn one_plus_sign_counts_for_nothing(text: Seq<u8>)
    ensures
        crate::bytes::coordinate(seq![0x2bu8] + text) == if text.len() > 0 && text[0] == 0x2b {
            None
        } else {
            crate::bytes::coordinate(text)
        },
{
    let signed = seq![0x2bu8] + text;
    assert(crate::bytes::without_plus(signed) == text);
    if text.len() > 0 && text[0] == 0x2b {
        assert(!crate::bytes::is_digit(text[0]));
    }
}

} // verus!
