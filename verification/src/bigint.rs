//! Arithmetic on unsigned integers of any size, given and returned as little-endian bytes.
//!
//! The arithmetic itself is `num::BigUint`'s. Nothing here is proved: each function states
//! what the operator it calls computes, over [`le_value`].
use crate::limbs::le_value;
use num::BigUint;
use vstd::prelude::*;

verus! {

/// The product of two integers, by `BigUint`'s `Mul`. The operands are read with
/// `BigUint::from_bytes_le` and the product is written with `BigUint::to_bytes_le`, so the
/// bytes that come back spell the product of what the operands spell.
#[verifier::external_body]
pub(crate) fn big_mul(a: &[u8], b: &[u8]) -> (r: Vec<u8>)
    ensures
        le_value(r@) == le_value(a@) * le_value(b@),
{
    (BigUint::from_bytes_le(a) * BigUint::from_bytes_le(b)).to_bytes_le()
}

/// The sum of two integers, by `BigUint`'s `Add`, read and written as in [`big_mul`].
#[verifier::external_body]
pub(crate) fn big_add(a: &[u8], b: &[u8]) -> (r: Vec<u8>)
    ensures
        le_value(r@) == le_value(a@) + le_value(b@),
{
    (BigUint::from_bytes_le(a) + BigUint::from_bytes_le(b)).to_bytes_le()
}

/// The quotient of `n` by `d`, rounded down, by `BigUint`'s `Div`, read and written as in
/// [`big_mul`]. `BigUint` panics on a zero divisor, which the precondition leaves out.
#[verifier::external_body]
pub(crate) fn big_div(n: &[u8], d: &[u8]) -> (r: Vec<u8>)
    requires
        le_value(d@) > 0,
    ensures
        le_value(r@) == le_value(n@) / le_value(d@),
{
    (BigUint::from_bytes_le(n) / BigUint::from_bytes_le(d)).to_bytes_le()
}

/// The remainder of `n` by `d`, by `BigUint`'s `Rem`, read and written as in [`big_mul`].
/// `BigUint` panics on a zero divisor, which the precondition leaves out.
#[verifier::external_body]
pub(crate) fn big_rem(n: &[u8], d: &[u8]) -> (r: Vec<u8>)
    requires
        le_value(d@) > 0,
    ensures
        le_value(r@) == le_value(n@) % le_value(d@),
{
    (BigUint::from_bytes_le(n) % BigUint::from_bytes_le(d)).to_bytes_le()
}

} // verus!
