//! Byte encodings of the puzzle inputs and their Keccak-256 digest.

use vstd::prelude::*;
use crate::bytes::{
    be_fixed, be_value, leading_zero_bytes, lemma_be_fixed_len, lemma_be_roundtrip,
    lemma_be_value_zero_prefix,
};
use crate::u256::u256_modulus;
use vstd::arithmetic::power::pow;
use crate::u256::{u256_to_big_endian, Address, U256};

verus! {

/// The Keccak-256 digest of `data`, as `ethers::utils::keccak256` computes it.
pub uninterp spec fn keccak256_digest(data: Seq<u8>) -> Seq<u8>;

/// `ethers::utils::keccak256`: the 32-byte Keccak-256 digest of `data`.
#[verifier::external_body]
pub(crate) fn keccak256(data: &[u8]) -> (h: [u8; 32])
    ensures
        h@ == keccak256_digest(data@),
{
    ethers::utils::keccak256(data)
}


/// Errors of the byte encodings.
#[derive(Clone, Copy, Debug, PartialEq, Eq, Structural)]
pub enum MinerError {
    /// `encode_packed` met a token kind it does not encode.
    UnsupportedToken,
}

/// The bytes hashed for a candidate `solution` of the puzzle `(nonce, address)`:
/// the 32-byte nonce, the 20-byte address and the 32-byte solution.
pub open spec fn mining_preimage(nonce: nat, address: Seq<u8>, solution: nat) -> Seq<u8> {
    be_fixed(nonce, 32) + address + be_fixed(solution, 32)
}

/// The digest that decides whether `solution` solves the puzzle `(nonce, address)`.
pub open spec fn mining_hash(nonce: nat, address: Seq<u8>, solution: nat) -> Seq<u8> {
    keccak256_digest(mining_preimage(nonce, address, solution))
}

/// Appends `src` to `dst` byte by byte.
pub(crate) fn append_bytes(dst: &mut Vec<u8>, src: &[u8])
    ensures
        final(dst)@ == old(dst)@ + src@,
{
    let n = src.len();
    for i in 0..n
        invariant
            n == src@.len(),
            dst@ == old(dst)@ + src@.subrange(0, i as int),
    {
        dst.push(src[i]);
        assert(src@.subrange(0, i + 1) =~= src@.subrange(0, i as int).push(src@[i as int]));
    }
    assert(src@.subrange(0, n as int) =~= src@);
}

/// The 32-byte big-endian encoding of `value`.
pub fn to_be_bytes_32(value: &U256) -> (bytes: [u8; 32])
    ensures
        bytes@ == be_fixed(value@, 32),
{
    u256_to_big_endian(value)
}

/// Left-pads `bytes` with zeros to 32 bytes.
pub fn pad_to_32(bytes: &[u8]) -> (padded: [u8; 32])
    requires
        bytes@.len() <= 32,
    ensures
        padded@ == Seq::new((32 - bytes@.len()) as nat, |i: int| 0u8) + bytes@,
{
    let mut result = [0u8; 32];
    let start = 32 - bytes.len();
    let n = bytes.len();
    for i in 0..n
        invariant
            n == bytes@.len(),
            start == 32 - n,
            forall|j: int| 0 <= j < start ==> result@[j] == 0u8,
            forall|j: int| start <= j < start + i ==> result@[j] == bytes@[j - start],
    {
        result[start + i] = bytes[i];
    }
    assert(result@ =~= Seq::new((32 - bytes@.len()) as nat, |i: int| 0u8) + bytes@);
    result
}

/// The tight encoding of a `uint256` and an `address`: the 32 big-endian
/// bytes of `num` followed by the 20 bytes of `addr`.
pub fn solidity_pack_uint_address(num: U256, addr: Address) -> (packed: Result<Vec<u8>, MinerError>)
    ensures
        packed matches Ok(v) && v@ == be_fixed(num@, 32) + addr@,
{
    let mut result: Vec<u8> = Vec::with_capacity(32 + 20);
    let buffer = to_be_bytes_32(&num);
    append_bytes(&mut result, &buffer);
    append_bytes(&mut result, &addr.0);
    assert(result@ =~= be_fixed(num@, 32) + addr@);
    Ok(result)
}

/// The tight encoding of `bytes` and a `uint256`: the bytes unchanged,
/// followed by the 32 big-endian bytes of `num`.
pub fn solidity_pack_bytes_uint(bytes: Vec<u8>, num: U256) -> (packed: Result<Vec<u8>, MinerError>)
    ensures
        packed matches Ok(v) && v@ == bytes@ + be_fixed(num@, 32),
{
    let mut result: Vec<u8> = Vec::with_capacity(bytes.len());
    append_bytes(&mut result, bytes.as_slice());
    let buffer = to_be_bytes_32(&num);
    append_bytes(&mut result, &buffer);
    assert(result@ =~= bytes@ + be_fixed(num@, 32));
    Ok(result)
}

/// Appends the tight encoding of `bytes` and a `uint256` to `output`.
pub fn solidity_pack_bytes_uint_into(bytes: &[u8], num: U256, output: &mut Vec<u8>) -> (r: Result<(), MinerError>)
    ensures
        r is Ok,
        final(output)@ == old(output)@ + bytes@ + be_fixed(num@, 32),
{
    append_bytes(output, bytes);
    let buffer = to_be_bytes_32(&num);
    append_bytes(output, &buffer);
    Ok(())
}

/// The digest of `nonce ‖ address ‖ solution` that the puzzle is judged on.
pub fn calculate_hash(nonce: U256, address: Address, solution: U256) -> (hash: [u8; 32])
    ensures
        hash@ == mining_hash(nonce@, address@, solution@),
        mining_hash(nonce@, address@, solution@).len() == 32,
{
    let mut encoded: Vec<u8> = Vec::with_capacity(32 + 20 + 32);
    let nonce_bytes = to_be_bytes_32(&nonce);
    append_bytes(&mut encoded, &nonce_bytes);
    append_bytes(&mut encoded, &address.0);
    let solution_bytes = to_be_bytes_32(&solution);
    append_bytes(&mut encoded, &solution_bytes);
    assert(encoded@ =~= mining_preimage(nonce@, address@, solution@));
    keccak256(encoded.as_slice())
}


/// A value handed to `encode_packed`, the kinds of an ABI token.
#[derive(Debug)]
pub enum Token {
    Address(Address),
    FixedBytes(Vec<u8>),
    Bytes(Vec<u8>),
    Int(U256),
    Uint(U256),
    Bool(bool),
    Str(String),
    FixedArray(Vec<Token>),
    Array(Vec<Token>),
    Tuple(Vec<Token>),
}

/// The tight encoding of an unsigned integer: its big-endian bytes without
/// leading zeros, or a single zero byte for zero.
pub open spec fn uint_packed(v: nat) -> Seq<u8> {
    let full = be_fixed(v, 32);
    let k = leading_zero_bytes(full);
    if k >= 32 {
        seq![0u8]
    } else {
        full.skip(k as int)
    }
}

/// The tight encoding of one token, `None` for the kinds that are not encoded.
pub open spec fn token_packed(t: Token) -> Option<Seq<u8>> {
    match t {
        Token::Address(a) => Some(a@),
        Token::Uint(v) => Some(uint_packed(v@)),
        Token::Bytes(b) => Some(b@),
        _ => None,
    }
}

/// The concatenated tight encodings of `ts`, `None` if any token is not encoded.
pub open spec fn encode_packed_spec(ts: Seq<Token>) -> Option<Seq<u8>>
    decreases ts.len(),
{
    if ts.len() == 0 {
        Some(Seq::empty())
    } else {
        match encode_packed_spec(ts.drop_last()) {
            Some(p) => match token_packed(ts.last()) {
                Some(q) => Some(p + q),
                None => None,
            },
            None => None,
        }
    }
}

/// The count of leading zero bytes is the first position that holds a
/// non-zero byte.
pub proof fn lemma_leading_zero_bytes_at(s: Seq<u8>, k: nat)
    requires
        k <= s.len(),
        forall|j: int| 0 <= j < k ==> s[j] == 0u8,
        k == s.len() || s[k as int] != 0u8,
    ensures
        leading_zero_bytes(s) == k,
    decreases k,
{
    if k > 0 {
        let t = s.drop_first();
        assert forall|j: int| 0 <= j < k - 1 implies t[j] == 0u8 by {
            assert(t[j] == s[j + 1]);
        }
        if k < s.len() {
            assert(t[k - 1] == s[k as int]);
        }
        lemma_leading_zero_bytes_at(t, (k - 1) as nat);
    }
}

/// Leading zero bytes of `s` are zero and are followed by a non-zero byte.
pub proof fn lemma_leading_zero_bytes_shape(s: Seq<u8>)
    ensures
        leading_zero_bytes(s) <= s.len(),
        forall|j: int| 0 <= j < leading_zero_bytes(s) ==> s[j] == 0u8,
        leading_zero_bytes(s) == s.len() || s[leading_zero_bytes(s) as int] != 0u8,
    decreases s.len(),
{
    if s.len() > 0 && s[0] == 0 {
        let t = s.drop_first();
        lemma_leading_zero_bytes_shape(t);
        assert forall|j: int| 0 <= j < leading_zero_bytes(s) implies s[j] == 0u8 by {
            if j > 0 {
                assert(s[j] == t[j - 1]);
            }
        }
        if leading_zero_bytes(s) < s.len() {
            assert(s[leading_zero_bytes(s) as int] == t[leading_zero_bytes(t) as int]);
        }
    }
}

/// The tight encoding of an integer below `2^256` reads back as the
/// integer, and does not start with a zero byte unless it is zero.
pub proof fn law_uint_packed_roundtrip(v: nat)
    requires
        v < u256_modulus(),
    ensures
        be_value(uint_packed(v)) == v,
        uint_packed(v).len() >= 1,
        v > 0 ==> uint_packed(v)[0] != 0u8,
{
    let full = be_fixed(v, 32);
    crate::u256::lemma_pow256_32();
    lemma_be_roundtrip(v, 32);
    lemma_leading_zero_bytes_shape(full);
    let k = leading_zero_bytes(full);
    assert(full =~= Seq::new(k, |i: int| 0u8) + full.skip(k as int));
    lemma_be_value_zero_prefix(k, full.skip(k as int));
    if k >= 32 {
        assert(full.skip(k as int) =~= Seq::<u8>::empty());
        assert(be_value(seq![0u8]) == 0) by {
            assert(seq![0u8].drop_last() =~= Seq::<u8>::empty());
        }
    } else {
        assert(full.skip(k as int)[0] == full[k as int]);
    }
}

/// Appends the tight encoding of an unsigned integer to `result`.
fn append_uint_packed(result: &mut Vec<u8>, value: &U256)
    ensures
        final(result)@ == old(result)@ + uint_packed(value@),
{
    let buffer = to_be_bytes_32(value);
    proof {
        lemma_be_fixed_len(value@, 32);
    }
    let mut start: usize = 0;
    while start < 32 && buffer[start] == 0
        invariant
            start <= 32,
            buffer@ == be_fixed(value@, 32),
            forall|j: int| 0 <= j < start ==> buffer@[j] == 0u8,
        decreases 32 - start,
    {
        start += 1;
    }
    proof {
        lemma_leading_zero_bytes_at(buffer@, start as nat);
    }
    if start == 32 {
        result.push(0u8);
        assert(result@ =~= old(result)@ + uint_packed(value@));
    } else {
        let ghost before = result@;
        let mut i: usize = start;
        while i < 32
            invariant
                start <= i <= 32,
                start < 32,
                result@ == before + buffer@.subrange(start as int, i as int),
            decreases 32 - i,
        {
            result.push(buffer[i]);
            assert(buffer@.subrange(start as int, i + 1) =~= buffer@.subrange(start as int, i as int).push(buffer@[i as int]));
            i += 1;
        }
        assert(buffer@.subrange(start as int, 32) =~= buffer@.skip(start as int));
    }
}

/// The tight (`abi.encodePacked`) encoding of `tokens`: addresses as their
/// 20 bytes, unsigned integers without leading zero bytes, byte strings
/// unchanged; any other kind of token is refused.
pub fn encode_packed(tokens: &[Token]) -> (packed: Result<Vec<u8>, MinerError>)
    ensures
        match encode_packed_spec(tokens@) {
            Some(p) => packed matches Ok(v) && v@ == p,
            None => packed == Err::<Vec<u8>, MinerError>(MinerError::UnsupportedToken),
        },
{
    let mut result: Vec<u8> = Vec::new();
    let n = tokens.len();
    for i in 0..n
        invariant
            n == tokens@.len(),
            encode_packed_spec(tokens@.subrange(0, i as int)) == Some(result@),
    {
        let ghost prefix = tokens@.subrange(0, i as int);
        assert(tokens@.subrange(0, i + 1).drop_last() =~= prefix);
        match &tokens[i] {
            Token::Address(addr) => {
                append_bytes(&mut result, &addr.0);
            },
            Token::Uint(value) => {
                append_uint_packed(&mut result, value);
            },
            Token::Bytes(bytes) => {
                append_bytes(&mut result, bytes.as_slice());
            },
            _ => {
                proof {
                    lemma_encode_packed_none_extends(tokens@, (i + 1) as nat);
                }
                return Err(MinerError::UnsupportedToken);
            },
        }
    }
    assert(tokens@.subrange(0, n as int) =~= tokens@);
    Ok(result)
}

/// Once a prefix of the tokens cannot be encoded, neither can the whole.
proof fn lemma_encode_packed_none_extends(ts: Seq<Token>, k: nat)
    requires
        k <= ts.len(),
        encode_packed_spec(ts.subrange(0, k as int)) is None,
    ensures
        encode_packed_spec(ts) is None,
    decreases ts.len() - k,
{
    if k < ts.len() {
        assert(ts.subrange(0, k + 1 as int).drop_last() =~= ts.subrange(0, k as int));
        lemma_encode_packed_none_extends(ts, k + 1);
    } else {
        assert(ts.subrange(0, k as int) =~= ts);
    }
}

/// The hashed preimage spells its inputs: the first 32 bytes are the whole
/// nonce in big-endian order, the next 20 the address, and the last 32 the
/// whole solution.
pub proof fn law_preimage_spells_inputs(nonce: nat, address: Seq<u8>, solution: nat)
    requires
        nonce < u256_modulus(),
        solution < u256_modulus(),
        address.len() == 20,
    ensures
        mining_preimage(nonce, address, solution).len() == 84,
        be_value(mining_preimage(nonce, address, solution).subrange(0, 32)) == nonce,
        mining_preimage(nonce, address, solution).subrange(32, 52) == address,
        be_value(mining_preimage(nonce, address, solution).subrange(52, 84)) == solution,
{
    crate::u256::lemma_pow256_32();
    lemma_be_roundtrip(nonce, 32);
    lemma_be_roundtrip(solution, 32);
    let p = mining_preimage(nonce, address, solution);
    assert(p.subrange(0, 32) =~= be_fixed(nonce, 32));
    assert(p.subrange(32, 52) =~= address);
    assert(p.subrange(52, 84) =~= be_fixed(solution, 32));
}

} // verus!
