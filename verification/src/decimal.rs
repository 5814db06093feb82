//! Decimal notation: the digits of a natural number, and the number that a
//! string of digits denotes.

use vstd::prelude::*;

verus! {

/// The character for a single decimal digit, `'0'` to `'9'`.
pub open spec fn digit_char(digit: nat) -> char
    recommends
        digit < 10,
{
    ('0' as nat + digit) as char
}

/// Whether `c` is one of `'0'` to `'9'`.
pub open spec fn is_decimal_digit(c: char) -> bool {
    '0' as nat <= c as nat <= '9' as nat
}

/// The digit that a decimal character stands for.
pub open spec fn digit_value(c: char) -> nat
    recommends
        is_decimal_digit(c),
{
    (c as nat - '0' as nat) as nat
}

/// The decimal representation of `value`, most significant digit first:
/// no sign, no separators, no leading zero. Zero is written `"0"`.
pub open spec fn decimal_digits(value: nat) -> Seq<char>
    decreases value,
{
    if value < 10 {
        seq![digit_char(value)]
    } else {
        decimal_digits(value / 10).push(digit_char(value % 10))
    }
}

/// The number that a string of decimal digits denotes; 0 for the empty string.
pub open spec fn decimal_value(digits: Seq<char>) -> nat
    decreases digits.len(),
{
    if digits.len() == 0 {
        0
    } else {
        decimal_value(digits.drop_last()) * 10 + digit_value(digits.last())
    }
}

/// Whether `text` is a decimal numeral in canonical form: at least one
/// character, decimal digits only, and no leading zero unless it is `"0"`.
pub open spec fn is_canonical_decimal(text: Seq<char>) -> bool {
    &&& text.len() >= 1
    &&& forall|i: int| 0 <= i < text.len() ==> is_decimal_digit(#[trigger] text[i])
    &&& (text.len() > 1 ==> text[0] != '0')
}

/// The digit characters are the ten decimal digits, and each stands for the
/// digit it was made from.
pub proof fn lemma_digit_char(digit: nat)
    requires
        digit < 10,
    ensures
        is_decimal_digit(digit_char(digit)),
        digit_value(digit_char(digit)) == digit,
        digit_char(digit) == '0' <==> digit == 0,
{
}

/// The representation of a number is canonical, and it starts with `'0'` only
/// for zero.
pub proof fn lemma_decimal_digits_canonical(value: nat)
    ensures
        is_canonical_decimal(decimal_digits(value)),
        decimal_digits(value)[0] == '0' <==> value == 0,
    decreases value,
{
    if value < 10 {
        lemma_digit_char(value);
    } else {
        lemma_decimal_digits_canonical(value / 10);
        lemma_digit_char(value % 10);
    }
}

/// Reading the representation of a number gives the number back.
pub proof fn lemma_decimal_round_trip(value: nat)
    ensures
        decimal_value(decimal_digits(value)) == value,
    decreases value,
{
    if value < 10 {
        lemma_digit_char(value);
        let text = decimal_digits(value);
        assert(text.drop_last() =~= Seq::<char>::empty());
        assert(decimal_value(text.drop_last()) == 0);
    } else {
        lemma_decimal_round_trip(value / 10);
        lemma_digit_char(value % 10);
        let upper = decimal_digits(value / 10);
        let text = decimal_digits(value);
        assert(text.drop_last() =~= upper);
    }
}

} // verus!
