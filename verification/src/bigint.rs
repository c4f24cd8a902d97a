//! The trusted boundary around `num_bigint`: the arbitrary-precision integer
//! type is declared opaque, its mathematical value is named by an
//! uninterpreted spec function, and each operation the library uses is
//! wrapped with the contract the crate's source shows.

use vstd::prelude::*;
use vstd::arithmetic::power::pow;

verus! {

#[verifier::external_type_specification]
#[verifier::external_body]
pub struct ExBigInt(num_bigint::BigInt);

/// The integer a `BigInt` holds. `num_bigint` computes with exact,
/// unbounded integers, so each wrapped operation is stated over this value.
pub uninterp spec fn big_int_value(b: num_bigint::BigInt) -> int;

/// Relies on num_bigint's `From<i64>`: the big integer with that value.
#[verifier::external_body]
pub(crate) fn big_from_i64(x: i64) -> (r: num_bigint::BigInt)
    ensures
        big_int_value(r) == x as int,
{
    num_bigint::BigInt::from(x)
}

/// Relies on num_bigint's `Clone`: the copy holds the same value.
#[verifier::external_body]
pub(crate) fn big_clone(a: &num_bigint::BigInt) -> (r: num_bigint::BigInt)
    ensures
        big_int_value(r) == big_int_value(*a),
{
    a.clone()
}

/// Relies on num_bigint's `Add` for `&BigInt`: exact integer addition.
#[verifier::external_body]
pub(crate) fn big_add(a: &num_bigint::BigInt, b: &num_bigint::BigInt) -> (r: num_bigint::BigInt)
    ensures
        big_int_value(r) == big_int_value(*a) + big_int_value(*b),
{
    a + b
}

/// Relies on num_bigint's `Mul` for `&BigInt`: exact integer multiplication.
#[verifier::external_body]
pub(crate) fn big_mul(a: &num_bigint::BigInt, b: &num_bigint::BigInt) -> (r: num_bigint::BigInt)
    ensures
        big_int_value(r) == big_int_value(*a) * big_int_value(*b),
{
    a * b
}

/// Relies on num_bigint's `Neg` for `&BigInt`: exact negation.
#[verifier::external_body]
pub(crate) fn big_neg(a: &num_bigint::BigInt) -> (r: num_bigint::BigInt)
    ensures
        big_int_value(r) == -big_int_value(*a),
{
    -a
}

/// Relies on num_bigint's `Ord`: big integers compare by value.
#[verifier::external_body]
pub(crate) fn big_lt(a: &num_bigint::BigInt, b: &num_bigint::BigInt) -> (r: bool)
    ensures
        r <==> big_int_value(*a) < big_int_value(*b),
{
    a < b
}

/// Relies on num_bigint's `Div` for `&BigInt`, which truncates toward zero:
/// on a nonnegative dividend and a positive divisor that is Euclidean
/// division, and the divisor is nonzero so the call cannot panic.
#[verifier::external_body]
pub(crate) fn big_div(a: &num_bigint::BigInt, b: &num_bigint::BigInt) -> (r: num_bigint::BigInt)
    requires
        big_int_value(*a) >= 0,
        big_int_value(*b) > 0,
    ensures
        big_int_value(r) == big_int_value(*a) / big_int_value(*b),
{
    a / b
}

/// Relies on num_bigint's `Rem` for `&BigInt`, which takes the dividend's
/// sign: on a nonnegative dividend and a positive divisor that is the
/// Euclidean remainder, and the divisor is nonzero so the call cannot panic.
#[verifier::external_body]
pub(crate) fn big_rem(a: &num_bigint::BigInt, b: &num_bigint::BigInt) -> (r: num_bigint::BigInt)
    requires
        big_int_value(*a) >= 0,
        big_int_value(*b) > 0,
    ensures
        big_int_value(r) == big_int_value(*a) % big_int_value(*b),
{
    a % b
}

/// Relies on num_bigint's `Pow<u64>` for `&BigInt` (through the `num_traits`
/// `Pow` trait): exact integer exponentiation.
#[verifier::external_body]
pub(crate) fn big_pow(base: &num_bigint::BigInt, e: u64) -> (r: num_bigint::BigInt)
    ensures
        big_int_value(r) == pow(big_int_value(*base), e as nat),
{
    num_traits::Pow::pow(base, e)
}

/// Relies on `BigInt::to_str_radix` at radix 10: the decimal digits of the
/// value, most significant first, with no leading zero, and no sign for a
/// nonnegative value.
#[verifier::external_body]
pub(crate) fn big_to_decimal(a: &num_bigint::BigInt) -> (r: String)
    requires
        big_int_value(*a) >= 0,
    ensures
        r@ == crate::digits::dec_digits(big_int_value(*a) as nat),
{
    a.to_str_radix(10)
}

} // verus!
