use magnet_miner::hashing::{
    calculate_hash, encode_packed, pad_to_32, solidity_pack_bytes_uint, solidity_pack_bytes_uint_into,
    solidity_pack_uint_address, to_be_bytes_32, MinerError, Token,
};
use magnet_miner::u256::{Address, U256};

fn sample_address() -> Address {
    let mut a = [0u8; 20];
    for (i, b) in a.iter_mut().enumerate() {
        *b = (i as u8) + 1;
    }
    Address(a)
}

#[test]
fn u256_constructors_hold_their_values() {
    assert_eq!(U256::zero().0, [0, 0, 0, 0]);
    assert_eq!(U256::one().0, [1, 0, 0, 0]);
    assert_eq!(U256::max_value().0, [u64::MAX; 4]);
    assert_eq!(U256::from_u64(77).0, [77, 0, 0, 0]);
    assert_eq!(U256([5, 9, 0, 1]).low_u64(), 5);
}

#[test]
fn to_be_bytes_32_is_big_endian() {
    let bytes = to_be_bytes_32(&U256::from_u64(0x0102));
    let mut expected = [0u8; 32];
    expected[30] = 1;
    expected[31] = 2;
    assert_eq!(bytes, expected);
    // the highest limb lands in the first bytes
    let high = to_be_bytes_32(&U256([0, 0, 0, 0xAB00_0000_0000_0000]));
    assert_eq!(high[0], 0xAB);
    assert!(high[1..].iter().all(|&b| b == 0));
}

#[test]
fn pad_to_32_left_pads_with_zeros() {
    let padded = pad_to_32(&[7, 8, 9]);
    assert!(padded[..29].iter().all(|&b| b == 0));
    assert_eq!(&padded[29..], &[7, 8, 9]);
    let full = [0xEEu8; 32];
    assert_eq!(pad_to_32(&full), full);
    assert_eq!(pad_to_32(&[]), [0u8; 32]);
}

#[test]
fn pack_uint_address_is_32_then_20_bytes() {
    let addr = sample_address();
    let packed = solidity_pack_uint_address(U256::from_u64(5), addr).unwrap();
    assert_eq!(packed.len(), 52);
    assert_eq!(packed[31], 5);
    assert!(packed[..31].iter().all(|&b| b == 0));
    assert_eq!(&packed[32..], &addr.0);
}

#[test]
fn pack_bytes_uint_keeps_bytes_then_32_bytes() {
    let packed = solidity_pack_bytes_uint(vec![0xAA, 0xBB], U256::from_u64(1)).unwrap();
    assert_eq!(packed.len(), 34);
    assert_eq!(&packed[..2], &[0xAA, 0xBB]);
    assert_eq!(packed[33], 1);
    let mut out = vec![0x11];
    solidity_pack_bytes_uint_into(&[0x22, 0x33], U256::from_u64(0x44), &mut out).unwrap();
    assert_eq!(out.len(), 35);
    assert_eq!(&out[..3], &[0x11, 0x22, 0x33]);
    assert_eq!(out[34], 0x44);
}

#[test]
fn calculate_hash_is_keccak_of_nonce_address_solution() {
    let addr = sample_address();
    let nonce = U256::from_u64(123456789);
    let solution = U256([1, 2, 3, 4]);
    let mut preimage = Vec::new();
    preimage.extend_from_slice(&to_be_bytes_32(&nonce));
    preimage.extend_from_slice(&addr.0);
    preimage.extend_from_slice(&to_be_bytes_32(&solution));
    let expected = ethers::utils::keccak256(&preimage);
    let hash = calculate_hash(nonce, addr, solution);
    assert_eq!(hash, expected);
    // the digest is not its input handed back
    assert_ne!(&hash[..], &preimage[..32]);
    // a different solution gives a different digest
    assert_ne!(calculate_hash(nonce, addr, U256::from_u64(0)), hash);
}

#[test]
fn keccak_of_known_input() {
    // keccak256 of 84 zero bytes, the preimage of nonce 0, address 0, solution 0
    let hash = calculate_hash(U256::zero(), Address([0u8; 20]), U256::zero());
    assert_eq!(hash, ethers::utils::keccak256([0u8; 84]));
}

#[test]
fn encode_packed_trims_uints_and_concatenates() {
    let addr = sample_address();
    let tokens = vec![
        Token::Uint(U256::from_u64(0)),
        Token::Uint(U256::from_u64(0x0102)),
        Token::Address(addr),
        Token::Bytes(vec![9, 9]),
    ];
    let packed = encode_packed(&tokens).unwrap();
    let mut expected = vec![0u8, 1, 2];
    expected.extend_from_slice(&addr.0);
    expected.extend_from_slice(&[9, 9]);
    assert_eq!(packed, expected);
    assert_eq!(encode_packed(&[]).unwrap(), Vec::<u8>::new());
}

#[test]
fn encode_packed_refuses_other_tokens() {
    assert_eq!(encode_packed(&[Token::Bool(true)]), Err(MinerError::UnsupportedToken));
    assert_eq!(
        encode_packed(&[Token::Uint(U256::one()), Token::Str("x".to_string())]),
        Err(MinerError::UnsupportedToken)
    );
    assert_eq!(encode_packed(&[Token::FixedBytes(vec![1])]), Err(MinerError::UnsupportedToken));
}
