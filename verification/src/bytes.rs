//! Big-endian byte strings read as natural numbers.

use vstd::prelude::*;
use vstd::arithmetic::power::*;
use vstd::arithmetic::div_mod::*;
use vstd::arithmetic::mul::*;

verus! {

/// The natural number that the bytes `s` spell in big-endian order.
pub open spec fn be_value(s: Seq<u8>) -> nat
    decreases s.len(),
{
    if s.len() == 0 {
        0
    } else {
        be_value(s.drop_last()) * 256 + s.last() as nat
    }
}

/// The `n` low bytes of `v`, most significant first.
pub open spec fn be_fixed(v: nat, n: nat) -> Seq<u8>
    decreases n,
{
    if n == 0 {
        Seq::empty()
    } else {
        be_fixed(v / 256, (n - 1) as nat).push((v % 256) as u8)
    }
}

/// Number of zero bytes at the front of `s`.
pub open spec fn leading_zero_bytes(s: Seq<u8>) -> nat
    decreases s.len(),
{
    if s.len() == 0 {
        0
    } else if s[0] == 0 {
        1 + leading_zero_bytes(s.drop_first())
    } else {
        0
    }
}

/// Whether every byte of `s` is zero.
pub open spec fn all_zero(s: Seq<u8>) -> bool {
    forall|i: int| 0 <= i < s.len() ==> s[i] == 0
}

pub proof fn lemma_be_fixed_len(v: nat, n: nat)
    ensures
        be_fixed(v, n).len() == n,
    decreases n,
{
    if n > 0 {
        lemma_be_fixed_len(v / 256, (n - 1) as nat);
    }
}

/// A big-endian string of `n` bytes spells a number below `256^n`.
pub proof fn lemma_be_value_bound(s: Seq<u8>)
    ensures
        be_value(s) < pow(256, s.len()),
    decreases s.len(),
{
    reveal(pow);
    if s.len() > 0 {
        let t = s.drop_last();
        lemma_be_value_bound(t);
        let p = pow(256, t.len());
        assert(be_value(t) + 1 <= p);
        assert(be_value(s) == be_value(t) * 256 + s.last() as nat);
        assert((be_value(t) + 1) * 256 <= p * 256) by (nonlinear_arith)
            requires be_value(t) + 1 <= p;
        assert(pow(256, s.len()) == 256 * p) by {
            assert(s.len() == t.len() + 1);
        }
    }
}

/// Encoding the low `n` bytes and reading them back gives `v mod 256^n`.
pub proof fn lemma_be_value_of_fixed(v: nat, n: nat)
    ensures
        be_value(be_fixed(v, n)) == v % (pow(256, n) as nat),
    decreases n,
{
    reveal(pow);
    if n == 0 {
        assert(v % 1 == 0) by (nonlinear_arith);
    } else {
        let m = (n - 1) as nat;
        lemma_be_value_of_fixed(v / 256, m);
        lemma_be_fixed_len(v / 256, m);
        let s = be_fixed(v, n);
        assert(s.drop_last() =~= be_fixed(v / 256, m));
        lemma_pow_positive(256, m);
        let p = pow(256, m);
        lemma_mod_breakdown(v as int, 256, p);
        assert(pow(256, n) == 256 * p);
        assert(256 * p == p * 256) by (nonlinear_arith);
        lemma_mul_is_commutative(256, (v / 256) as int % p);
    }
}

/// Below `256^n`, the fixed-width encoding reads back as the number itself.
pub proof fn lemma_be_roundtrip(v: nat, n: nat)
    requires
        v < pow(256, n),
    ensures
        be_value(be_fixed(v, n)) == v,
        be_fixed(v, n).len() == n,
{
    lemma_be_value_of_fixed(v, n);
    lemma_be_fixed_len(v, n);
    lemma_small_mod(v, pow(256, n) as nat);
}

/// Appending bytes shifts the value of the prefix.
pub proof fn lemma_be_value_append(a: Seq<u8>, b: Seq<u8>)
    ensures
        be_value(a + b) == be_value(a) * pow(256, b.len()) + be_value(b),
    decreases b.len(),
{
    reveal(pow);
    if b.len() == 0 {
        assert(a + b =~= a);
    } else {
        let b1 = b.drop_last();
        lemma_be_value_append(a, b1);
        assert((a + b).drop_last() =~= a + b1);
        assert((a + b).last() == b.last());
        let p = pow(256, b1.len());
        assert(pow(256, b.len()) == 256 * p);
        assert((be_value(a) * p + be_value(b1)) * 256 + b.last() as nat
            == be_value(a) * (256 * p) + (be_value(b1) * 256 + b.last() as nat))
            by (nonlinear_arith);
    }
}

/// Leading zero bytes do not change the value.
pub proof fn lemma_be_value_zero_prefix(n: nat, b: Seq<u8>)
    ensures
        be_value(Seq::new(n, |i: int| 0u8) + b) == be_value(b),
{
    let z = Seq::new(n, |i: int| 0u8);
    lemma_be_value_append(z, b);
    lemma_be_value_all_zero(z);
}

/// A string of zero bytes spells zero.
pub proof fn lemma_be_value_all_zero(s: Seq<u8>)
    requires
        all_zero(s),
    ensures
        be_value(s) == 0,
    decreases s.len(),
{
    if s.len() > 0 {
        lemma_be_value_all_zero(s.drop_last());
    }
}

} // verus!
