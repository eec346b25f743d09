//! The difficulty checks of the mining puzzle and the search for solutions.

use vstd::prelude::*;
use vstd::arithmetic::power::pow;
use vstd::arithmetic::power2::{pow2, lemma2_to64, lemma_pow2_adds};
use vstd::arithmetic::div_mod::{lemma_div_is_ordered, lemma_div_multiples_vanish};
use crate::bytes::{
    all_zero, be_fixed, be_value, leading_zero_bytes, lemma_be_roundtrip, lemma_be_value_bound,
};
use crate::u256::{
    bit_len, lemma_limbs_low, lemma_pow256_32, saturating_sub, u256_bits, u256_checked_mul,
    u256_from_big_endian, u256_le, u256_leading_zeros, u256_modulus, Address, U256,
};
use crate::hashing::{
    calculate_hash, keccak256, mining_hash, mining_preimage, solidity_pack_uint_address,
    to_be_bytes_32, MinerError,
};
use crate::bigint::{biguint_div, biguint_le, biguint_lt, biguint_mul, biguint_shl};

verus! {

/// Basic sanity of a digest: not all zero, 32 bytes long, and, for a
/// difficulty of more than 200 binary digits, at least one leading zero
/// byte per 16 digits of the difficulty.
pub open spec fn hash_looks_valid(hash: Seq<u8>, difficulty: nat) -> bool {
    &&& !all_zero(hash)
    &&& hash.len() == 32
    &&& bit_len(difficulty) > 200 ==> leading_zero_bytes(hash) >= bit_len(difficulty) / 16
}

/// First check: `hash * difficulty < 2^256 - 1`.
pub open spec fn product_check(h: nat, difficulty: nat) -> bool {
    h * difficulty < u256_modulus() - 1
}

/// Second check: `hash <= (2^256 - 1) / difficulty`.
pub open spec fn quotient_check(h: nat, difficulty: nat) -> bool {
    h <= (u256_modulus() - 1) as nat / difficulty
}

/// Third check: the hash has at least as many leading zero bits as the
/// difficulty has binary digits, less one.
pub open spec fn leading_zero_check(h: nat, difficulty: nat) -> bool {
    256 - bit_len(h) >= saturating_sub(bit_len(difficulty), 1)
}

/// At least two of three verdicts hold.
pub open spec fn majority(a: bool, b: bool, c: bool) -> bool {
    (a && b) || (b && c) || (a && c)
}

/// Whether the digest `hash` is accepted at `difficulty` by the local check:
/// it looks valid and at least two of the three checks pass.
pub open spec fn hash_accepted(hash: Seq<u8>, difficulty: nat) -> bool {
    let h = be_value(hash);
    &&& hash_looks_valid(hash, difficulty)
    &&& majority(
        product_check(h, difficulty),
        quotient_check(h, difficulty),
        leading_zero_check(h, difficulty),
    )
}

/// The target that a digest must not exceed: `2^256 / difficulty`.
pub open spec fn target_for(difficulty: nat) -> nat {
    u256_modulus() / difficulty
}

/// `2^256` as a power of two.
pub proof fn lemma_pow2_256()
    ensures
        pow2(256) == u256_modulus(),
{
    lemma2_to64();
    assert(pow2(64) == crate::u256::limb_base());
    lemma_pow2_adds(64, 64);
    assert(pow2(128) == crate::u256::limb_base() * crate::u256::limb_base());
    lemma_pow2_adds(128, 128);
}

/// Thirty-two `0xff` bytes spell `2^256 - 1`.
proof fn lemma_be_value_all_ff(n: nat)
    ensures
        be_value(Seq::new(n, |i: int| 0xffu8)) == pow(256, n) - 1,
    decreases n,
{
    reveal(pow);
    if n > 0 {
        let s = Seq::new(n, |i: int| 0xffu8);
        assert(s.drop_last() =~= Seq::new((n - 1) as nat, |i: int| 0xffu8));
        lemma_be_value_all_ff((n - 1) as nat);
    }
}

/// A `U256` written as 32 big-endian bytes reads back as itself.
proof fn lemma_u256_bytes_roundtrip(x: U256)
    ensures
        be_value(be_fixed(x@, 32)) == x@,
        be_fixed(x@, 32).len() == 32,
{
    lemma_limbs_low(x.0);
    lemma_pow256_32();
    lemma_be_roundtrip(x@, 32);
}

/// The first check implies the second.
pub proof fn lemma_product_implies_quotient(h: nat, d: nat)
    requires
        d > 0,
        product_check(h, d),
    ensures
        quotient_check(h, d),
{
    let m = (u256_modulus() - 1) as int;
    assert(h * d == d * h) by (nonlinear_arith);
    lemma_div_is_ordered((d * h) as int, m, d as int);
    lemma_div_multiples_vanish(h as int, d as int);
}

/// Whether the digest `hash` passes the basic sanity check at `difficulty`.
pub fn is_valid_hash(hash: &[u8], difficulty: &U256) -> (valid: bool)
    ensures
        valid == hash_looks_valid(hash@, difficulty@),
{
    let n = hash.len();
    let mut all_zero_bytes = true;
    for i in 0..n
        invariant
            n == hash@.len(),
            all_zero_bytes == (forall|j: int| 0 <= j < i ==> hash@[j] == 0u8),
    {
        if hash[i] != 0 {
            all_zero_bytes = false;
        }
    }
    if all_zero_bytes {
        return false;
    }
    if hash.len() != 32 {
        return false;
    }
    let bits = u256_bits(difficulty);
    if bits > 200 {
        let zeros = count_leading_zero_bytes(hash);
        if zeros < bits / 16 {
            return false;
        }
    }
    true
}

/// The number of zero bytes at the front of `bytes`.
pub fn count_leading_zero_bytes(bytes: &[u8]) -> (count: usize)
    ensures
        count == leading_zero_bytes(bytes@),
{
    let mut k: usize = 0;
    while k < bytes.len() && bytes[k] == 0
        invariant
            k <= bytes@.len(),
            forall|j: int| 0 <= j < k ==> bytes@[j] == 0u8,
        decreases bytes@.len() - k,
    {
        k += 1;
    }
    proof {
        crate::hashing::lemma_leading_zero_bytes_at(bytes@, k as nat);
    }
    k
}

/// Whether the digest `hash` is accepted at `difficulty` by the local
/// check: the sanity check, then a majority of the product, quotient and
/// leading-zero checks.
pub fn accepts_hash(hash: &[u8; 32], difficulty: &U256) -> (accepted: bool)
    requires
        difficulty@ > 0,
    ensures
        accepted == hash_accepted(hash@, difficulty@),
{
    if !is_valid_hash(hash, difficulty) {
        return false;
    }
    let difficulty_bytes = to_be_bytes_32(difficulty);
    let max_bytes = vec![0xffu8; 32];
    proof {
        lemma_u256_bytes_roundtrip(*difficulty);
        lemma_be_value_all_ff(32);
        lemma_pow256_32();
        assert(max_bytes@ =~= Seq::new(32, |i: int| 0xffu8));
    }
    // first check: hash * difficulty < 2^256 - 1
    let product = biguint_mul(hash, &difficulty_bytes);
    let valid1 = biguint_lt(&product, &max_bytes);
    // second check: hash <= (2^256 - 1) / difficulty
    let target = biguint_div(&max_bytes, &difficulty_bytes);
    let valid2 = biguint_le(hash, &target);
    // third check: enough leading zero bits
    let hash_u256 = u256_from_big_endian(hash);
    let required_zeros = if u256_bits(difficulty) >= 1 { u256_bits(difficulty) - 1 } else { 0 };
    let actual_zeros = u256_leading_zeros(&hash_u256) as usize;
    let valid3 = actual_zeros >= required_zeros;
    (valid1 && valid2) || (valid2 && valid3) || (valid1 && valid3)
}

/// Local verification of a candidate: hashes `nonce ‖ address ‖ solution`
/// and accepts it when the digest passes the sanity check and at least two
/// of the three difficulty checks.
pub fn verify_solution_locally(nonce: U256, address: Address, solution: U256, difficulty: U256) -> (r: Result<bool, MinerError>)
    requires
        difficulty@ > 0,
    ensures
        r == Ok::<bool, MinerError>(hash_accepted(mining_hash(nonce@, address@, solution@), difficulty@)),
{
    let packed_data = match solidity_pack_uint_address(nonce, address) {
        Ok(v) => v,
        Err(e) => return Err(e),
    };
    proof {
        crate::bytes::lemma_be_fixed_len(nonce@, 32);
    }
    let mut input_data: Vec<u8> = Vec::with_capacity(packed_data.len() + 32);
    crate::hashing::append_bytes(&mut input_data, packed_data.as_slice());
    let buffer = to_be_bytes_32(&solution);
    crate::hashing::append_bytes(&mut input_data, &buffer);
    assert(input_data@ =~= mining_preimage(nonce@, address@, solution@));
    let hash = keccak256(input_data.as_slice());
    Ok(accepts_hash(&hash, &difficulty))
}

/// Whether `solution` solves the puzzle: the digest of
/// `nonce ‖ address ‖ solution` does not exceed `2^256 / difficulty`.
pub fn verify_solution(nonce: U256, address: Address, solution: U256, difficulty: U256) -> (valid: bool)
    requires
        difficulty@ > 0,
    ensures
        valid == (be_value(mining_hash(nonce@, address@, solution@)) <= target_for(difficulty@)),
        mining_hash(nonce@, address@, solution@).len() == 32,
{
    let hash = calculate_hash(nonce, address, solution);
    let target = compute_target(&difficulty);
    biguint_le(&hash, &target)
}

/// `2^256 / difficulty` as big-endian bytes.
pub fn compute_target(difficulty: &U256) -> (target: Vec<u8>)
    requires
        difficulty@ > 0,
    ensures
        be_value(target@) == target_for(difficulty@),
{
    let mut base: Vec<u8> = Vec::new();
    base.push(1u8);
    let shifted = biguint_shl(&base, 256);
    let difficulty_bytes = to_be_bytes_32(difficulty);
    proof {
        lemma_u256_bytes_roundtrip(*difficulty);
        lemma_pow2_256();
        assert(be_value(base@) == 1) by {
            assert(base@.len() == 1 && base@[0] == 1u8);
            assert(base@.drop_last() =~= Seq::<u8>::empty());
            assert(be_value(Seq::<u8>::empty()) == 0);
        }
    }
    biguint_div(&shifted, &difficulty_bytes)
}

/// The fast check of a candidate: whether `hash * difficulty` stays below
/// `2^256` (the same as `hash < 2^256 / difficulty`), tested with a
/// multiplication that reports overflow.
pub fn fast_verify_solution(nonce: U256, address: Address, solution: U256, difficulty: U256) -> (valid: bool)
    ensures
        valid == (be_value(mining_hash(nonce@, address@, solution@)) * difficulty@ < u256_modulus()),
{
    let hash = calculate_hash(nonce, address, solution);
    let hash_u256 = u256_from_big_endian(&hash);
    match u256_checked_mul(&hash_u256, &difficulty) {
        Some(_) => true,
        None => false,
    }
}

/// A candidate accepted by the local check never exceeds the target
/// `2^256 / difficulty` that `verify_solution` compares against.
pub proof fn law_local_acceptance_meets_target(hash: Seq<u8>, difficulty: nat)
    requires
        difficulty > 0,
        hash_accepted(hash, difficulty),
    ensures
        be_value(hash) <= target_for(difficulty),
{
    let h = be_value(hash);
    if product_check(h, difficulty) {
        lemma_product_implies_quotient(h, difficulty);
    }
    assert(quotient_check(h, difficulty));
    lemma_div_is_ordered((u256_modulus() - 1) as int, u256_modulus() as int, difficulty as int);
}

/// The share of the 64-bit candidate space that worker `index` of `count`
/// searches: `count` equal chunks of `u64::MAX / count` candidates, the
/// last one running to `u64::MAX`.
pub open spec fn work_range_spec(index: nat, count: nat) -> (nat, nat) {
    let chunk = 0xffff_ffff_ffff_ffffnat / count;
    let start = index * chunk;
    if index + 1 == count {
        (start, 0xffff_ffff_ffff_ffffnat)
    } else {
        (start, (start + chunk - 1) as nat)
    }
}

/// The inclusive range of candidates that worker `index` of `count` searches.
pub fn work_range(index: usize, count: usize) -> (range: (u64, u64))
    requires
        0 < count,
        index < count,
    ensures
        range.0 as nat == work_range_spec(index as nat, count as nat).0,
        range.1 as nat == work_range_spec(index as nat, count as nat).1,
        range.0 <= range.1,
{
    let chunk = u64::MAX / (count as u64);
    proof {
        lemma_work_range_bounds(index as nat, count as nat);
    }
    let start = index as u64 * chunk;
    if index == count - 1 {
        (start, u64::MAX)
    } else {
        (start, start + chunk - 1)
    }
}

proof fn lemma_work_range_bounds(index: nat, count: nat)
    requires
        0 < count,
        index < count,
        count <= 0xffff_ffff_ffff_ffff,
    ensures
        0xffff_ffff_ffff_ffffnat / count >= 1,
        (index + 1) * (0xffff_ffff_ffff_ffffnat / count) <= 0xffff_ffff_ffff_ffff,
        index * (0xffff_ffff_ffff_ffffnat / count) + 0xffff_ffff_ffff_ffffnat / count
            == (index + 1) * (0xffff_ffff_ffff_ffffnat / count),
{
    let m = 0xffff_ffff_ffff_ffffnat;
    let c = m / count;
    vstd::arithmetic::div_mod::lemma_fundamental_div_mod(m as int, count as int);
    assert(c >= 1) by {
        vstd::arithmetic::div_mod::lemma_div_is_ordered(count as int, m as int, count as int);
        vstd::arithmetic::div_mod::lemma_div_by_self(count as int);
    }
    assert((index + 1) * c <= count * c) by (nonlinear_arith)
        requires
            index + 1 <= count,
            c >= 1,
    ;
    assert(count * c <= m);
    assert(index * c + c == (index + 1) * c) by (nonlinear_arith);
}

/// The workers' ranges cover the candidate space from 0 to `u64::MAX`
/// without gap or overlap: the first starts at 0, each next one starts
/// right after the previous one ends, and the last ends at `u64::MAX`.
pub proof fn law_work_ranges_partition(count: nat, index: nat)
    requires
        0 < count <= 0xffff_ffff_ffff_ffff,
        index < count,
    ensures
        work_range_spec(0, count).0 == 0,
        work_range_spec((count - 1) as nat, count).1 == 0xffff_ffff_ffff_ffffnat,
        work_range_spec(index, count).0 <= work_range_spec(index, count).1,
        index + 1 < count ==> work_range_spec(index, count).1 + 1 == work_range_spec(index + 1, count).0,
{
    lemma_work_range_bounds(index, count);
    assert(0 * (0xffff_ffff_ffff_ffffnat / count) == 0);
}

/// The first candidate in `start..=end` whose digest the local check
/// accepts at `difficulty`, with every earlier candidate refused; `None`
/// when none is accepted.
pub fn search_accepted_solution(nonce: U256, address: Address, difficulty: U256, start: u64, end: u64) -> (found: Option<u64>)
    requires
        difficulty@ > 0,
    ensures
        match found {
            Some(s) => {
                &&& start <= s <= end
                &&& hash_accepted(mining_hash(nonce@, address@, s as nat), difficulty@)
                &&& forall|t: nat| start <= t < s ==> !hash_accepted(mining_hash(nonce@, address@, t), difficulty@)
            },
            None => forall|t: nat| start <= t <= end ==> !hash_accepted(mining_hash(nonce@, address@, t), difficulty@),
        },
{
    if start > end {
        return None;
    }
    let mut current = start;
    loop
        invariant
            start <= current <= end,
            difficulty@ > 0,
            forall|t: nat| start <= t < current ==> !hash_accepted(mining_hash(nonce@, address@, t), difficulty@),
        decreases end - current,
    {
        let hash = calculate_hash(nonce, address, U256::from_u64(current));
        if accepts_hash(&hash, &difficulty) {
            return Some(current);
        }
        if current == end {
            return None;
        }
        current += 1;
    }
}

/// A mining puzzle with its target: the nonce and address that every
/// candidate is hashed with, the difficulty, and `2^256 / difficulty` as
/// big-endian bytes.
pub struct MiningSession {
    pub nonce: U256,
    pub address: Address,
    pub difficulty: U256,
    pub target: Vec<u8>,
}

impl MiningSession {
    /// The session's invariant: a positive difficulty, and the target is
    /// `2^256 / difficulty`.
    pub open spec fn wf(&self) -> bool {
        &&& self.difficulty@ > 0
        &&& be_value(self.target@) == target_for(self.difficulty@)
    }

    /// A session for the puzzle, with the target `2^256 / difficulty`.
    pub fn new(nonce: U256, address: Address, difficulty: U256) -> (session: Self)
        requires
            difficulty@ > 0,
        ensures
            session.nonce == nonce,
            session.address == address,
            session.difficulty == difficulty,
            be_value(session.target@) == target_for(difficulty@),
            session.wf(),
    {
        let target = compute_target(&difficulty);
        MiningSession { nonce, address, difficulty, target }
    }

    /// Whether the digest of `solution` does not exceed the session's target.
    pub fn meets_target(&self, solution: U256) -> (meets: bool)
        ensures
            meets == (be_value(mining_hash(self.nonce@, self.address@, solution@)) <= be_value(self.target@)),
            self.wf() ==> (meets == (be_value(mining_hash(self.nonce@, self.address@, solution@)) <= target_for(self.difficulty@))),
    {
        let hash = calculate_hash(self.nonce, self.address, solution);
        biguint_le(&hash, self.target.as_slice())
    }

    /// The first candidate in `start..=end` that meets the target, with
    /// every earlier one failing it; `None` when none does.
    pub fn search_range(&self, start: u64, end: u64) -> (found: Option<u64>)
        ensures
            match found {
                Some(s) => {
                    &&& start <= s <= end
                    &&& be_value(mining_hash(self.nonce@, self.address@, s as nat)) <= be_value(self.target@)
                    &&& forall|t: nat| start <= t < s ==>
                        be_value(mining_hash(self.nonce@, self.address@, t)) > be_value(self.target@)
                },
                None => forall|t: nat| start <= t <= end ==>
                    be_value(mining_hash(self.nonce@, self.address@, t)) > be_value(self.target@),
            },
    {
        if start > end {
            return None;
        }
        let mut current = start;
        loop
            invariant
                start <= current <= end,
                forall|t: nat| start <= t < current ==>
                    be_value(mining_hash(self.nonce@, self.address@, t)) > be_value(self.target@),
            decreases end - current,
        {
            if self.meets_target(U256::from_u64(current)) {
                return Some(current);
            }
            if current == end {
                return None;
            }
            current += 1;
        }
    }
}

/// The solution of a search split among workers: that of the first worker,
/// in worker order, that found one.
pub fn first_worker_solution(results: &Vec<Option<u64>>) -> (found: Option<u64>)
    ensures
        match found {
            Some(s) => exists|i: int| {
                &&& 0 <= i < results@.len()
                &&& results@[i] == Some(s)
                &&& forall|j: int| 0 <= j < i ==> #[trigger] results@[j] is None
            },
            None => forall|j: int| 0 <= j < results@.len() ==> #[trigger] results@[j] is None,
        },
{
    let n = results.len();
    for i in 0..n
        invariant
            n == results@.len(),
            forall|j: int| 0 <= j < i ==> #[trigger] results@[j] is None,
    {
        if let Some(s) = results[i] {
            return Some(s);
        }
    }
    None
}

/// The target shrinks as the difficulty grows, so a candidate that passes
/// `verify_solution` at a difficulty passes it at every lower positive one.
pub proof fn law_target_shrinks_with_difficulty(hash: Seq<u8>, d1: nat, d2: nat)
    requires
        1 <= d1 <= d2,
    ensures
        target_for(d2) <= target_for(d1),
        be_value(hash) <= target_for(d2) ==> be_value(hash) <= target_for(d1),
{
    vstd::arithmetic::div_mod::lemma_div_is_ordered_by_denominator(u256_modulus() as int, d1 as int, d2 as int);
}

/// At difficulty one every 32-byte digest is within the target, so
/// `verify_solution` accepts every candidate.
pub proof fn law_difficulty_one_accepts_all(hash: Seq<u8>)
    requires
        hash.len() == 32,
    ensures
        be_value(hash) <= target_for(1),
{
    lemma_be_value_bound(hash);
    lemma_pow256_32();
}

/// Whether candidate `t` lies in the range of worker `index` of `count`.
pub open spec fn in_work_range(index: nat, count: nat, t: nat) -> bool {
    work_range_spec(index, count).0 <= t <= work_range_spec(index, count).1
}

/// Every candidate from 0 to `u64::MAX` lies in the range of some worker.
pub proof fn law_work_ranges_cover(count: nat, t: nat) -> (index: nat)
    requires
        0 < count <= 0xffff_ffff_ffff_ffff,
        t <= 0xffff_ffff_ffff_ffff,
    ensures
        index < count,
        work_range_spec(index, count).0 <= t <= work_range_spec(index, count).1,
{
    let c = 0xffff_ffff_ffff_ffffnat / count;
    lemma_work_range_bounds(0, count);
    let q = t / c;
    vstd::arithmetic::div_mod::lemma_fundamental_div_mod(t as int, c as int);
    if q + 1 < count {
        lemma_work_range_bounds(q, count);
        assert(q * c <= t);
        assert(t < q * c + c);
        q
    } else {
        let last = (count - 1) as nat;
        lemma_work_range_bounds(last, count);
        assert(q >= last);
        assert(last * c <= q * c) by (nonlinear_arith)
            requires
                last <= q,
        ;
        last
    }
}

/// A search split among workers that finds nothing has refused every
/// candidate: when no worker's range holds a candidate with property
/// `accepted` (the local check, or meeting a session's target), no
/// candidate from 0 to `u64::MAX` has it.
pub proof fn law_failed_search_refuses_all(accepted: spec_fn(nat) -> bool, count: nat)
    requires
        0 < count <= 0xffff_ffff_ffff_ffff,
        forall|i: nat, t: nat| i < count && #[trigger] in_work_range(i, count, t) ==> !accepted(t),
    ensures
        forall|t: nat| t <= 0xffff_ffff_ffff_ffff ==> !#[trigger] accepted(t),
{
    assert forall|t: nat| t <= 0xffff_ffff_ffff_ffff implies !#[trigger] accepted(t) by {
        let i = law_work_ranges_cover(count, t);
        assert(in_work_range(i, count, t));
    }
}

/// The product check decides: at a positive difficulty of at most 200
/// binary digits, a 32-byte digest that is not all zero is accepted by the
/// local check whenever `digest * difficulty < 2^256 - 1`, whatever its
/// leading zero bits.
pub proof fn law_product_check_accepts(hash: Seq<u8>, difficulty: nat)
    requires
        difficulty > 0,
        bit_len(difficulty) <= 200,
        hash.len() == 32,
        exists|i: int| 0 <= i < 32 && hash[i] != 0u8,
        be_value(hash) * difficulty < u256_modulus() - 1,
    ensures
        hash_accepted(hash, difficulty),
{
    let h = be_value(hash);
    assert(!all_zero(hash));
    lemma_product_implies_quotient(h, difficulty);
}

} // verus!
