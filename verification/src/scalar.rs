//! The trusted boundary around `num_bigint`'s arbitrary-precision integers.
//!
//! A `BigInt` is opaque to the verifier.  The spec function [`big_value`]
//! names the mathematical integer a `BigInt` holds; each wrapper below states
//! over `big_value` what the `num_bigint` operation it calls computes, as the
//! crate's source shows it.

use vstd::prelude::*;

verus! {

#[verifier::external_type_specification]
#[verifier::external_body]
pub struct ExBigInt(num_bigint::BigInt);

#[verifier::external_type_specification]
#[verifier::external_body]
pub struct ExThreadRng(rand::rngs::ThreadRng);

/// The mathematical integer that a `num_bigint::BigInt` holds.
pub uninterp spec fn big_value(b: num_bigint::BigInt) -> int;

/// Relies on `num_traits::Zero::zero` for `BigInt`: the additive identity.
#[verifier::external_body]
pub fn big_zero() -> (r: num_bigint::BigInt)
    ensures
        big_value(r) == 0,
{
    <num_bigint::BigInt as num_traits::Zero>::zero()
}

/// Relies on `BigInt`'s `From<i64>` impl: exact conversion of a machine integer.
#[verifier::external_body]
pub fn big_from_i64(v: i64) -> (r: num_bigint::BigInt)
    ensures
        big_value(r) == v as int,
{
    num_bigint::BigInt::from(v)
}

/// Relies on `BigInt`'s `Clone` impl: the copy holds the same integer.
#[verifier::external_body]
pub fn big_clone(a: &num_bigint::BigInt) -> (r: num_bigint::BigInt)
    ensures
        big_value(r) == big_value(*a),
{
    a.clone()
}

/// Relies on `BigInt`'s `Add` impl: exact integer addition.
#[verifier::external_body]
pub fn big_add(a: &num_bigint::BigInt, b: &num_bigint::BigInt) -> (r: num_bigint::BigInt)
    ensures
        big_value(r) == big_value(*a) + big_value(*b),
{
    a + b
}

/// Relies on `BigInt`'s `Sub` impl: exact integer subtraction.
#[verifier::external_body]
pub fn big_sub(a: &num_bigint::BigInt, b: &num_bigint::BigInt) -> (r: num_bigint::BigInt)
    ensures
        big_value(r) == big_value(*a) - big_value(*b),
{
    a - b
}

/// Relies on `BigInt`'s `Mul` impl: exact integer multiplication.
#[verifier::external_body]
pub fn big_mul(a: &num_bigint::BigInt, b: &num_bigint::BigInt) -> (r: num_bigint::BigInt)
    ensures
        big_value(r) == big_value(*a) * big_value(*b),
{
    a * b
}

/// Relies on `BigInt`'s `PartialEq` impl: equality of the held integers
/// (a `BigInt` is kept in canonical form).
#[verifier::external_body]
pub fn big_eq(a: &num_bigint::BigInt, b: &num_bigint::BigInt) -> (r: bool)
    ensures
        r == (big_value(*a) == big_value(*b)),
{
    a == b
}

/// Relies on `num_traits::Zero::is_zero` for `BigInt`: tests for the zero value.
#[verifier::external_body]
pub fn big_is_zero(a: &num_bigint::BigInt) -> (r: bool)
    ensures
        r == (big_value(*a) == 0),
{
    <num_bigint::BigInt as num_traits::Zero>::is_zero(a)
}

/// Relies on `rand::thread_rng`: a handle to the thread-local generator.
#[verifier::external_body]
pub fn fresh_rng() -> rand::rngs::ThreadRng {
    rand::thread_rng()
}

/// Relies on `num_bigint::RandBigInt::gen_bigint_range`: a value in
/// `[low, high)`; the call panics unless `low < high`, so that is required.
/// Nothing more is promised of a random draw.
#[verifier::external_body]
pub fn big_random_range(
    rng: &mut rand::rngs::ThreadRng,
    low: &num_bigint::BigInt,
    high: &num_bigint::BigInt,
) -> (r: num_bigint::BigInt)
    requires
        big_value(*low) < big_value(*high),
    ensures
        big_value(*low) <= big_value(r) < big_value(*high),
{
    num_bigint::RandBigInt::gen_bigint_range(rng, low, high)
}

} // verus!
