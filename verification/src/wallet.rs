//! The checks made before mining starts: the form of the private key the
//! user types, the chain the node serves, and the balances the wallet and
//! the mining contract must hold.

use vstd::prelude::*;
use vstd::string::StringSliceAdditionalSpecFns;
use crate::u256::{u256_le, U256};

verus! {

/// The chain the miner works on.
pub const CHAIN_ID: u64 = 114514;

/// The least wallet balance that mining starts with: 0.1 coin, in wei.
pub const MIN_WALLET_BALANCE_WEI: u64 = 100_000_000_000_000_000;

/// The least balance of the mining contract's pool: 3 coins, in wei.
pub const MIN_CONTRACT_BALANCE_WEI: u64 = 3_000_000_000_000_000_000;

/// Whether `b` is an ASCII hexadecimal digit, in either case.
pub open spec fn is_hex_digit(b: u8) -> bool {
    (48 <= b <= 57) || (65 <= b <= 70) || (97 <= b <= 102)
}

/// The value of the hexadecimal digit `b`.
pub open spec fn hex_digit_value(b: u8) -> nat {
    if 48 <= b <= 57 {
        (b - 48) as nat
    } else if 65 <= b <= 70 {
        (b - 55) as nat
    } else {
        (b - 87) as nat
    }
}

/// Whether `data` is hexadecimal text: an even number of hexadecimal digits.
pub open spec fn is_hex_text(data: Seq<u8>) -> bool {
    data.len() % 2 == 0 && forall|i: int| 0 <= i < data.len() ==> is_hex_digit(#[trigger] data[i])
}

/// The bytes that hexadecimal text stands for, two digits each, the high
/// digit first.
pub open spec fn hex_bytes(data: Seq<u8>) -> Seq<u8> {
    Seq::new(data.len() / 2, |i: int| (hex_digit_value(data[2 * i]) * 16 + hex_digit_value(data[2 * i + 1])) as u8)
}

/// `hex::decode`: the bytes of hexadecimal text; `None` for text of odd
/// length or with a character that is no hexadecimal digit.
#[verifier::external_body]
fn hex_decode(data: &[u8]) -> (decoded: Option<Vec<u8>>)
    ensures
        decoded is Some <==> is_hex_text(data@),
        decoded matches Some(v) ==> v@ == hex_bytes(data@),
{
    hex::decode(data).ok()
}

/// Whether typed text has the form of a private key: `0x` followed by 64
/// hexadecimal digits (66 bytes in all).
pub open spec fn private_key_text_ok(b: Seq<u8>) -> bool {
    &&& b.len() == 66
    &&& b[0] == 48
    &&& b[1] == 120
    &&& is_hex_text(b.subrange(2, 66))
}

/// Whether `input` has the form of a private key (see
/// `private_key_text_ok`); the check the key prompt applies.
pub fn private_key_format_ok(input: &str) -> (ok: bool)
    ensures
        ok == private_key_text_ok(input.spec_bytes()),
{
    let b = input.as_bytes();
    if b.len() != 66 || b[0] != 48 || b[1] != 120 {
        return false;
    }
    let mut digits: Vec<u8> = Vec::new();
    for i in 2..66usize
        invariant
            b@.len() == 66,
            digits@ == b@.subrange(2, i as int),
    {
        digits.push(b[i]);
        assert(b@.subrange(2, i + 1) =~= b@.subrange(2, i as int).push(b@[i as int]));
    }
    hex_decode(digits.as_slice()).is_some()
}

/// Whether the node serves the miner's chain.
pub fn chain_id_matches(chain_id: U256) -> (matches: bool)
    ensures
        matches == (chain_id@ == CHAIN_ID as nat),
{
    let expected = U256::from_u64(CHAIN_ID);
    u256_le(&chain_id, &expected) && u256_le(&expected, &chain_id)
}

/// Whether the wallet holds enough to start mining (at least 0.1 coin).
pub fn wallet_balance_sufficient(balance: U256) -> (enough: bool)
    ensures
        enough == (balance@ >= MIN_WALLET_BALANCE_WEI as nat),
{
    u256_le(&U256::from_u64(MIN_WALLET_BALANCE_WEI), &balance)
}

/// Whether the mining contract's pool holds enough to pay rewards (at
/// least 3 coins).
pub fn contract_balance_sufficient(balance: U256) -> (enough: bool)
    ensures
        enough == (balance@ >= MIN_CONTRACT_BALANCE_WEI as nat),
{
    u256_le(&U256::from_u64(MIN_CONTRACT_BALANCE_WEI), &balance)
}

} // verus!
