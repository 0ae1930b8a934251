//! Trusted boundary to `num_bigint::BigInt`, the arbitrary-precision
//! integer type used for ranks, files and the turn counter.
//!
//! `big_value` names the mathematical integer a `BigInt` holds; every
//! wrapper states its effect over that name, and all verified reasoning
//! about coordinates happens on `int` values in specifications.

use vstd::prelude::*;

use num_bigint::BigInt;

verus! {

#[verifier::external_type_specification]
#[verifier::external_body]
pub struct ExBigInt(BigInt);

/// The integer value a `BigInt` holds. A `BigInt` is a pure value, so the
/// value is a function of the argument alone.
pub uninterp spec fn big_value(b: BigInt) -> int;

/// Relies on `<BigInt as From<i64>>::from`: builds the big integer with
/// exactly the given value.
#[verifier::external_body]
pub fn big_from_i64(v: i64) -> (r: BigInt)
    ensures
        big_value(r) == v as int,
{
    BigInt::from(v)
}

/// Relies on `<BigInt as Clone>::clone`: the clone holds the same value.
#[verifier::external_body]
pub fn big_clone(a: &BigInt) -> (r: BigInt)
    ensures
        big_value(r) == big_value(*a),
{
    a.clone()
}

/// Relies on `<BigInt as PartialEq>::eq`, which compares sign and
/// magnitude: two big integers are `==` exactly when they hold the same
/// value.
#[verifier::external_body]
pub fn big_eq(a: &BigInt, b: &BigInt) -> (r: bool)
    ensures
        r == (big_value(*a) == big_value(*b)),
{
    a == b
}

/// Relies on `<BigInt as Ord>::cmp` (reached through `<`), which orders
/// big integers by their numeric value.
#[verifier::external_body]
pub fn big_lt(a: &BigInt, b: &BigInt) -> (r: bool)
    ensures
        r == (big_value(*a) < big_value(*b)),
{
    a < b
}

/// Relies on `Add<&BigInt> for &BigInt`: exact integer addition.
#[verifier::external_body]
pub fn big_add(a: &BigInt, b: &BigInt) -> (r: BigInt)
    ensures
        big_value(r) == big_value(*a) + big_value(*b),
{
    a + b
}

/// Relies on `Sub<&BigInt> for &BigInt`: exact integer subtraction.
#[verifier::external_body]
pub fn big_sub(a: &BigInt, b: &BigInt) -> (r: BigInt)
    ensures
        big_value(r) == big_value(*a) - big_value(*b),
{
    a - b
}

/// Relies on `num_traits::Signed::abs` for `BigInt`: the absolute value.
#[verifier::external_body]
pub fn big_abs(a: &BigInt) -> (r: BigInt)
    ensures
        big_value(r) == (if big_value(*a) < 0 {
            -big_value(*a)
        } else {
            big_value(*a)
        }),
{
    num_traits::Signed::abs(a)
}

/// Relies on `<BigInt as From<i64>>::from` and `Add<BigInt> for &BigInt`:
/// the value shifted by `d`.
#[verifier::external_body]
pub fn big_add_i64(a: &BigInt, d: i64) -> (r: BigInt)
    ensures
        big_value(r) == big_value(*a) + d as int,
{
    a + BigInt::from(d)
}

} // verus!
