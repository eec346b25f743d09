//! The 256-bit unsigned integers and 20-byte account addresses that the
//! mining puzzle is stated in. Arithmetic, comparison and byte conversion
//! are those of `ethers`' `U256`; the library holds the same four limbs as
//! plain values and hands them to `ethers` for each operation.

use vstd::prelude::*;
use vstd::arithmetic::power::{lemma_pow1, lemma_pow_adds, pow};
use crate::bytes::{be_fixed, be_value};

verus! {

/// `2^64`, the weight of the second limb.
pub open spec fn limb_base() -> nat {
    18446744073709551616nat
}

/// `2^256`, one more than the largest value of a `U256`.
pub open spec fn u256_modulus() -> nat {
    115792089237316195423570985008687907853269984665640564039457584007913129639936nat
}

/// The value of four 64-bit limbs, least significant limb first.
pub open spec fn limbs_value(l: [u64; 4]) -> nat {
    l[0] as nat + l[1] as nat * limb_base() + l[2] as nat * (limb_base() * limb_base())
        + l[3] as nat * (limb_base() * limb_base() * limb_base())
}

/// Number of binary digits of `v` (zero has none).
pub open spec fn bit_len(v: nat) -> nat
    decreases v,
{
    if v == 0 {
        0
    } else {
        1 + bit_len(v / 2)
    }
}

/// `a - b`, or zero where `b` is larger.
pub open spec fn saturating_sub(a: nat, b: nat) -> nat {
    if a >= b {
        (a - b) as nat
    } else {
        0
    }
}

/// A 256-bit unsigned integer held as four 64-bit limbs, least significant
/// limb first, the layout of `ethers::types::U256`.
#[derive(Clone, Copy, Debug)]
pub struct U256(pub [u64; 4]);

impl View for U256 {
    type V = nat;

    open spec fn view(&self) -> nat {
        limbs_value(self.0)
    }
}

/// A 20-byte account address.
#[derive(Clone, Copy, Debug)]
pub struct Address(pub [u8; 20]);

impl View for Address {
    type V = Seq<u8>;

    open spec fn view(&self) -> Seq<u8> {
        self.0@
    }
}

impl U256 {
    /// The number zero.
    pub fn zero() -> (r: U256)
        ensures
            r@ == 0,
    {
        let r = U256([0, 0, 0, 0]);
        assert(r.0[0] == 0 && r.0[1] == 0 && r.0[2] == 0 && r.0[3] == 0);
        r
    }

    /// The number one.
    pub fn one() -> (r: U256)
        ensures
            r@ == 1,
    {
        let r = U256([1, 0, 0, 0]);
        assert(r.0[0] == 1 && r.0[1] == 0 && r.0[2] == 0 && r.0[3] == 0);
        r
    }

    /// The largest value, `2^256 - 1`.
    pub fn max_value() -> (r: U256)
        ensures
            r@ == u256_modulus() - 1,
    {
        U256([0xffff_ffff_ffff_ffff, 0xffff_ffff_ffff_ffff, 0xffff_ffff_ffff_ffff, 0xffff_ffff_ffff_ffff])
    }

    /// The value of a 64-bit integer.
    pub fn from_u64(v: u64) -> (r: U256)
        ensures
            r@ == v,
    {
        let r = U256([v, 0, 0, 0]);
        assert(r.0[0] == v && r.0[1] == 0 && r.0[2] == 0 && r.0[3] == 0);
        r
    }

    /// The lowest limb, the value modulo `2^64`.
    pub fn low_u64(&self) -> (r: u64)
        ensures
            r == self@ % limb_base(),
    {
        proof {
            lemma_limbs_low(self.0);
        }
        self.0[0]
    }
}

/// The value of four limbs is below `2^256`, and its lowest limb is the
/// remainder modulo `2^64`.
pub proof fn lemma_limbs_low(l: [u64; 4])
    ensures
        limbs_value(l) < u256_modulus(),
        limbs_value(l) % limb_base() == l[0],
{
    let b = limb_base();
    let (a0, a1, a2, a3) = (l[0] as nat, l[1] as nat, l[2] as nat, l[3] as nat);
    assert(a0 < b && a1 < b && a2 < b && a3 < b);
    assert(a0 + a1 * b + a2 * (b * b) + a3 * (b * b * b) < b * b * b * b) by (nonlinear_arith)
        requires
            a0 < b,
            a1 < b,
            a2 < b,
            a3 < b,
            b > 0,
    ;
    assert(b * b * b * b == u256_modulus());
    let q = a1 + a2 * b + a3 * (b * b);
    assert(a0 + a1 * b + a2 * (b * b) + a3 * (b * b * b) == (a1 + a2 * b + a3 * (b * b)) * b + a0)
        by (nonlinear_arith);
    vstd::arithmetic::div_mod::lemma_fundamental_div_mod_converse(
        limbs_value(l) as int,
        b as int,
        q as int,
        a0 as int,
    );
}

/// `256^32` is `2^256`.
pub proof fn lemma_pow256_32()
    ensures
        pow(256, 32) == u256_modulus(),
{
    lemma_pow1(256);
    lemma_pow_adds(256, 1, 1);
    assert(pow(256, 2) == 65536);
    lemma_pow_adds(256, 2, 2);
    assert(pow(256, 4) == 4294967296);
    lemma_pow_adds(256, 4, 4);
    assert(pow(256, 8) == limb_base());
    lemma_pow_adds(256, 8, 8);
    assert(pow(256, 16) == limb_base() * limb_base());
    lemma_pow_adds(256, 16, 16);
    assert(pow(256, 32) == (limb_base() * limb_base()) * (limb_base() * limb_base()));
}

/// `ethers::types::U256::to_big_endian`: writes the 32-byte big-endian
/// encoding of the value.
#[verifier::external_body]
pub(crate) fn u256_to_big_endian(x: &U256) -> (b: [u8; 32])
    ensures
        b@ == be_fixed(x@, 32),
{
    let mut b = [0u8; 32];
    ethers::types::U256(x.0).to_big_endian(&mut b);
    b
}

/// `ethers::types::U256::from_big_endian`: reads at most 32 big-endian bytes
/// (it asserts on a longer slice).
#[verifier::external_body]
pub(crate) fn u256_from_big_endian(b: &[u8]) -> (x: U256)
    requires
        b@.len() <= 32,
    ensures
        x@ == be_value(b@),
{
    U256(ethers::types::U256::from_big_endian(b).0)
}

/// `ethers::types::U256::bits`: the number of binary digits of the value.
#[verifier::external_body]
pub(crate) fn u256_bits(x: &U256) -> (n: usize)
    ensures
        n == bit_len(x@),
{
    ethers::types::U256(x.0).bits()
}

/// `ethers::types::U256::leading_zeros`: 256 minus the number of binary
/// digits of the value.
#[verifier::external_body]
pub(crate) fn u256_leading_zeros(x: &U256) -> (n: u32)
    ensures
        n as nat + bit_len(x@) == 256,
{
    ethers::types::U256(x.0).leading_zeros()
}

/// `ethers::types::U256::checked_mul`: the product where it is below
/// `2^256`, `None` where it is not.
#[verifier::external_body]
pub(crate) fn u256_checked_mul(a: &U256, b: &U256) -> (r: Option<U256>)
    ensures
        match r {
            Some(c) => a@ * b@ < u256_modulus() && c@ == a@ * b@,
            None => a@ * b@ >= u256_modulus(),
        },
{
    ethers::types::U256(a.0).checked_mul(ethers::types::U256(b.0)).map(|c| U256(c.0))
}

/// `ethers::types::U256` multiplication (`*`), which panics on overflow.
#[verifier::external_body]
pub(crate) fn u256_mul(a: &U256, b: &U256) -> (r: U256)
    requires
        a@ * b@ < u256_modulus(),
    ensures
        r@ == a@ * b@,
{
    U256((ethers::types::U256(a.0) * ethers::types::U256(b.0)).0)
}

/// `ethers::types::U256` division (`/`), which panics on a zero divisor.
#[verifier::external_body]
pub(crate) fn u256_div(a: &U256, b: &U256) -> (r: U256)
    requires
        b@ > 0,
    ensures
        r@ == a@ / b@,
{
    U256((ethers::types::U256(a.0) / ethers::types::U256(b.0)).0)
}

/// `ethers::types::U256` comparison (`<=`) by value.
#[verifier::external_body]
pub(crate) fn u256_le(a: &U256, b: &U256) -> (r: bool)
    ensures
        r == (a@ <= b@),
{
    ethers::types::U256(a.0) <= ethers::types::U256(b.0)
}

} // verus!
