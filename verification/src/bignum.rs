//! Unbounded natural numbers, as `num_bigint::BigUint` provides them.
//!
//! The type is opaque to the verifier. What a value holds is named by
//! [`big_digits`], and everything this module says of the outside crate's
//! operations is taken on trust from that crate.

use num_bigint::BigUint;
use vstd::prelude::*;

verus! {

/// Makes `num_bigint::BigUint` known to the verifier, as a type whose inside
/// it does not see.
#[verifier::external_type_specification]
#[verifier::external_body]
pub struct ExBigUint(num_bigint::BigUint);

/// The base 2^32 digits that a `BigUint` holds, least significant first,
/// as `BigUint::to_u32_digits` hands them out.
pub uninterp spec fn big_digits(b: BigUint) -> Seq<u32>;

/// The number that a sequence of base 2^32 digits stands for, least
/// significant digit first.
pub open spec fn digits_value(digits: Seq<u32>) -> nat
    decreases digits.len(),
{
    if digits.len() == 0 {
        0
    } else {
        digits[0] as nat + 0x1_0000_0000 * digits_value(digits.skip(1))
    }
}

/// The number that a `BigUint` stands for.
pub open spec fn big_value(b: BigUint) -> nat {
    digits_value(big_digits(b))
}

/// Calls `BigUint::from` on a `u32`.
///
/// Taken on trust: the result stands for the number `x`.
#[verifier::external_body]
pub(crate) fn big_from_u32(x: u32) -> (r: BigUint)
    ensures
        digits_value(big_digits(r)) == x,
{
    BigUint::from(x)
}

/// Calls `BigUint`'s `+` with a `BigUint` on the left and a `&BigUint` on
/// the right.
///
/// Taken on trust: the result stands for the sum of the numbers that the
/// two operands stand for.
#[verifier::external_body]
pub(crate) fn big_add(a: BigUint, b: &BigUint) -> (r: BigUint)
    ensures
        digits_value(big_digits(r)) == digits_value(big_digits(a)) + digits_value(big_digits(*b)),
{
    a + b
}

} // verus!
