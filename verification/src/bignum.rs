//! The arbitrary-precision accumulator: a thin layer over `ibig::UBig`.
//!
//! Everything that is believed of `ibig` rather than proved stands in this
//! file: the type itself, the number it stands for, and one function for each
//! operation of `UBig` that the accumulator uses.

use crate::decimal::decimal_digits;
use ibig::UBig;
use vstd::arithmetic::power2::pow2;
use vstd::prelude::*;

verus! {

/// `ibig::UBig`, an unsigned integer of arbitrary size, carried as an opaque value.
#[verifier::external_type_specification]
#[verifier::external_body]
pub struct ExUBig(UBig);

/// The number that a `UBig` stands for.
pub uninterp spec fn ubig_value(number: UBig) -> nat;

/// The largest bit length that the accumulator is asked to hold: `2^32 - 128`.
///
/// `ibig` panics rather than build a number longer than `UBig::MAX_BIT_LEN`
/// bits. That constant depends on the target: it is the word size times the
/// largest even number of words that is at most `usize::MAX` divided by the
/// word size, and at most what `ibig`'s largest transform can multiply. With
/// the word size that `ibig` picks for a target whose `usize` has 32 bits or
/// more, the smallest value it takes is the one given here (words of 64 bits
/// with a `usize` of 32 bits).
pub open spec fn max_bit_len() -> nat {
    4_294_967_168
}

/// Whether `value` is short enough for the accumulator on every target.
///
/// This speaks of the length of the number only. Whether the machine has the
/// memory to hold it is not modelled.
pub open spec fn fits(value: nat) -> bool {
    value < pow2(max_bit_len())
}

/// `UBig::from` for a `u64`: the result stands for the same number.
#[verifier::external_body]
fn ubig_from_u64(value: u64) -> (number: UBig)
    ensures
        ubig_value(number) == value,
{
    UBig::from(value)
}

/// `*=` of a `UBig` by a `u64`: afterwards the `UBig` stands for the exact
/// product. Left out are the products too long for `ibig`, on which it panics.
#[verifier::external_body]
fn ubig_mul_assign_u64(number: &mut UBig, factor: u64)
    requires
        fits(ubig_value(*old(number)) * (factor as nat)),
    ensures
        ubig_value(*final(number)) == ubig_value(*old(number)) * factor,
{
    *number *= factor;
}

/// `*=` of a `UBig` by another: afterwards the first stands for the exact
/// product. Left out are the products too long for `ibig`, on which it panics.
#[verifier::external_body]
fn ubig_mul_assign(number: &mut UBig, factor: UBig)
    requires
        fits(ubig_value(*old(number)) * ubig_value(factor)),
    ensures
        ubig_value(*final(number)) == ubig_value(*old(number)) * ubig_value(factor),
{
    *number *= factor;
}

/// `to_string` of a `UBig`, which goes through its `Display`: the number in
/// decimal, most significant digit first, without sign, padding or leading
/// zero, and `"0"` for zero.
#[verifier::external_body]
fn ubig_to_string(number: &UBig) -> (text: String)
    ensures
        text@ == decimal_digits(ubig_value(*number)),
{
    number.to_string()
}

/// A mutable non-negative integer of unbounded size, used to build up a
/// running product.
pub struct Accumulator {
    number: UBig,
}

impl View for Accumulator {
    type V = nat;

    closed spec fn view(&self) -> nat {
        ubig_value(self.number)
    }
}

impl Accumulator {
    /// An accumulator that holds `value`.
    pub fn from_u64(value: u64) -> (acc: Accumulator)
        ensures
            acc@ == value,
    {
        Accumulator { number: ubig_from_u64(value) }
    }

    /// Multiplies the accumulator in place by a machine integer. The product
    /// is exact: it grows as far as it needs to.
    pub fn multiply_by_u64(&mut self, factor: u64)
        requires
            fits(old(self)@ * (factor as nat)),
        ensures
            final(self)@ == old(self)@ * factor,
    {
        ubig_mul_assign_u64(&mut self.number, factor);
    }

    /// Multiplies the accumulator in place by another one, which it consumes.
    pub fn multiply_by(&mut self, factor: Accumulator)
        requires
            fits(old(self)@ * factor@),
        ensures
            final(self)@ == old(self)@ * factor@,
    {
        ubig_mul_assign(&mut self.number, factor.number);
    }

    /// The value in decimal notation.
    pub fn to_decimal_string(&self) -> (text: String)
        ensures
            text@ == decimal_digits(self@),
    {
        ubig_to_string(&self.number)
    }
}

} // verus!
