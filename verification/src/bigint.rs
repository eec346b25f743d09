//! Arbitrary-precision unsigned arithmetic of `num_bigint::BigUint`, on
//! numbers held as big-endian byte strings.

use vstd::prelude::*;
use vstd::arithmetic::power2::pow2;
use crate::bytes::be_value;

verus! {

/// `num_bigint::BigUint` multiplication (`*`) of two big-endian numbers.
#[verifier::external_body]
pub(crate) fn biguint_mul(a: &[u8], b: &[u8]) -> (r: Vec<u8>)
    ensures
        be_value(r@) == be_value(a@) * be_value(b@),
{
    (num_bigint::BigUint::from_bytes_be(a) * num_bigint::BigUint::from_bytes_be(b)).to_bytes_be()
}

/// `num_bigint::BigUint` division (`/`), which panics on a zero divisor.
#[verifier::external_body]
pub(crate) fn biguint_div(a: &[u8], b: &[u8]) -> (r: Vec<u8>)
    requires
        be_value(b@) > 0,
    ensures
        be_value(r@) == be_value(a@) / be_value(b@),
{
    (num_bigint::BigUint::from_bytes_be(a) / num_bigint::BigUint::from_bytes_be(b)).to_bytes_be()
}

/// `num_bigint::BigUint` left shift (`shl`) by `bits` binary places.
#[verifier::external_body]
pub(crate) fn biguint_shl(a: &[u8], bits: usize) -> (r: Vec<u8>)
    ensures
        be_value(r@) == be_value(a@) * pow2(bits as nat),
{
    std::ops::Shl::shl(num_bigint::BigUint::from_bytes_be(a), bits).to_bytes_be()
}

/// `num_bigint::BigUint` comparison `<=` by value.
#[verifier::external_body]
pub(crate) fn biguint_le(a: &[u8], b: &[u8]) -> (r: bool)
    ensures
        r == (be_value(a@) <= be_value(b@)),
{
    num_bigint::BigUint::from_bytes_be(a) <= num_bigint::BigUint::from_bytes_be(b)
}

/// `num_bigint::BigUint` comparison `<` by value.
#[verifier::external_body]
pub(crate) fn biguint_lt(a: &[u8], b: &[u8]) -> (r: bool)
    ensures
        r == (be_value(a@) < be_value(b@)),
{
    num_bigint::BigUint::from_bytes_be(a) < num_bigint::BigUint::from_bytes_be(b)
}

} // verus!
