//! The numeric type of the sequence: an arbitrary-precision signed integer
//! from `num_bigint`, modelled in specifications by the mathematical integer
//! it holds.

use vstd::prelude::*;

verus! {

/// The number type of the sequence: an arbitrary-precision integer, so terms
/// may grow without bound.
pub type Number = num_bigint::BigInt;

/// Declares `num_bigint::BigInt` so that it can stand in signatures and
/// fields; its value is reached only through [`big_value`].
#[verifier::external_type_specification]
#[verifier::external_body]
pub struct ExBigInt(num_bigint::BigInt);

/// The mathematical integer that a `Number` holds.
pub uninterp spec fn big_value(b: num_bigint::BigInt) -> int;

/// Relies on `<BigInt as Clone>::clone`: the clone holds the same value.
pub assume_specification[ <num_bigint::BigInt as Clone>::clone ](
    b: &num_bigint::BigInt,
) -> (r: num_bigint::BigInt)
    ensures
        big_value(r) == big_value(*b),
;

/// Relies on `<BigInt as From<i128>>::from`: builds the big integer with
/// exactly the given value.
#[verifier::external_body]
pub(crate) fn big_from_i128(x: i128) -> (r: Number)
    ensures
        big_value(r) == x as int,
{
    num_bigint::BigInt::from(x)
}

/// Relies on `Add<&BigInt> for &BigInt`: big-integer addition is exact
/// integer addition.
#[verifier::external_body]
pub(crate) fn big_add(a: &Number, b: &Number) -> (r: Number)
    ensures
        big_value(r) == big_value(*a) + big_value(*b),
{
    a + b
}

/// Relies on `<BigInt as PartialEq>::eq`: two big integers are equal exactly
/// when they hold the same value.
#[verifier::external_body]
pub(crate) fn big_eq(a: &Number, b: &Number) -> (r: bool)
    ensures
        r == (big_value(*a) == big_value(*b)),
{
    a == b
}

/// Relies on `<BigInt as Ord>::cmp` (through `>`): big integers are ordered
/// by the values they hold.
#[verifier::external_body]
pub(crate) fn big_gt(a: &Number, b: &Number) -> (r: bool)
    ensures
        r == (big_value(*a) > big_value(*b)),
{
    a > b
}

/// Conversion into the sequence's number type.
pub trait IntoNumber {
    /// The mathematical value of the converted number.
    spec fn number_value(self) -> int;

    /// Converts the given value into a [`Number`].
    fn into_number(self) -> (r: Number)
        ensures
            big_value(r) == self.number_value(),
    ;
}

impl IntoNumber for i128 {
    open spec fn number_value(self) -> int {
        self as int
    }

    fn into_number(self) -> (r: Number) {
        big_from_i128(self)
    }
}

} // verus!
