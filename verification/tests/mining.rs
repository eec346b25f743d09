use magnet_miner::hashing::calculate_hash;
use magnet_miner::mining::{
    accepts_hash, compute_target, count_leading_zero_bytes, fast_verify_solution, first_worker_solution,
    is_valid_hash, search_accepted_solution, verify_solution, verify_solution_locally, work_range,
    MiningSession,
};
use magnet_miner::u256::{Address, U256};

fn addr() -> Address {
    Address([0x42u8; 20])
}

fn two_pow_255() -> U256 {
    U256([0, 0, 0, 1u64 << 63])
}

#[test]
fn leading_zero_bytes_counted() {
    assert_eq!(count_leading_zero_bytes(&[0, 0, 1, 0]), 2);
    assert_eq!(count_leading_zero_bytes(&[5]), 0);
    assert_eq!(count_leading_zero_bytes(&[0, 0, 0]), 3);
    assert_eq!(count_leading_zero_bytes(&[]), 0);
}

#[test]
fn is_valid_hash_sanity_checks() {
    let mut h = [0u8; 32];
    assert!(!is_valid_hash(&h, &U256::one()), "all-zero digest refused");
    h[31] = 1;
    assert!(is_valid_hash(&h, &U256::one()));
    assert!(!is_valid_hash(&[1u8; 31], &U256::one()), "short digest refused");
    // a difficulty of 256 binary digits asks for 16 leading zero bytes
    let big = U256::max_value();
    let mut no_zeros = [0xFFu8; 32];
    assert!(!is_valid_hash(&no_zeros, &big));
    for b in no_zeros.iter_mut().take(16) {
        *b = 0;
    }
    assert!(is_valid_hash(&no_zeros, &big));
}

#[test]
fn accepts_hash_majority_of_checks() {
    let mut small = [0u8; 32];
    small[31] = 1;
    assert!(accepts_hash(&small, &U256::from_u64(1000)));
    let large = [0xF0u8; 32];
    assert!(!accepts_hash(&large, &U256::from_u64(1000)));
    assert!(accepts_hash(&large, &U256::one()));
}

#[test]
fn verify_solution_locally_matches_digest_check() {
    let nonce = U256::from_u64(99);
    let hash = calculate_hash(nonce, addr(), U256::from_u64(7));
    let expected = accepts_hash(&hash, &U256::from_u64(3));
    assert_eq!(verify_solution_locally(nonce, addr(), U256::from_u64(7), U256::from_u64(3)), Ok(expected));
    // difficulty one accepts (almost) every digest
    assert_eq!(verify_solution_locally(nonce, addr(), U256::from_u64(7), U256::one()), Ok(accepts_hash(&hash, &U256::one())));
}

#[test]
fn compute_target_is_two_pow_256_over_difficulty() {
    let t = compute_target(&U256::from_u64(2));
    assert_eq!(t.len(), 32);
    assert_eq!(t[0], 0x80);
    assert!(t[1..].iter().all(|&b| b == 0));
    let one = compute_target(&U256::one());
    assert_eq!(one.len(), 33);
    assert_eq!(one[0], 1);
    let quarter = compute_target(&U256::from_u64(4));
    assert_eq!(quarter[0], 0x40);
}

#[test]
fn verify_solution_against_target() {
    let nonce = U256::from_u64(1);
    // everything is at most 2^256 / 1
    assert!(verify_solution(nonce, addr(), U256::from_u64(3), U256::one()));
    let hash = calculate_hash(nonce, addr(), U256::from_u64(3));
    // 2^256 / 2^255 == 2: only digests 0, 1, 2 pass
    let tiny = hash[..31].iter().all(|&b| b == 0) && hash[31] <= 2;
    assert_eq!(verify_solution(nonce, addr(), U256::from_u64(3), two_pow_255()), tiny);
}

#[test]
fn fast_verify_tests_product_below_two_pow_256() {
    for (nonce, solution, d) in [(1u64, 5u64, U256::max_value()), (0, 0, U256::zero()), (3, 9, U256::one()), (7, 2, U256::from_u64(3)), (7, 2, two_pow_255())] {
        let hash = calculate_hash(U256::from_u64(nonce), addr(), U256::from_u64(solution));
        let h = ethers::types::U256::from_big_endian(&hash);
        let expected = h.checked_mul(ethers::types::U256(d.0)).is_some();
        assert_eq!(fast_verify_solution(U256::from_u64(nonce), addr(), U256::from_u64(solution), d), expected);
    }
    // difficulty one and zero always pass; the largest difficulty passes only a digest of 0 or 1
    assert!(fast_verify_solution(U256::one(), addr(), U256::from_u64(5), U256::one()));
    assert!(fast_verify_solution(U256::one(), addr(), U256::from_u64(5), U256::zero()));
    assert!(!fast_verify_solution(U256::one(), addr(), U256::from_u64(5), U256::max_value()));
}

#[test]
fn work_ranges_split_the_space() {
    let chunk = u64::MAX / 4;
    assert_eq!(work_range(0, 4), (0, chunk - 1));
    assert_eq!(work_range(1, 4), (chunk, 2 * chunk - 1));
    assert_eq!(work_range(3, 4), (3 * chunk, u64::MAX));
    assert_eq!(work_range(0, 1), (0, u64::MAX));
    for count in 1..6usize {
        assert_eq!(work_range(0, count).0, 0);
        for i in 0..count - 1 {
            assert_eq!(work_range(i, count).1 + 1, work_range(i + 1, count).0);
        }
        assert_eq!(work_range(count - 1, count).1, u64::MAX);
    }
}

#[test]
fn search_finds_first_accepted_candidate() {
    let nonce = U256::from_u64(5);
    let d = U256::from_u64(16);
    let found = search_accepted_solution(nonce, addr(), d, 0, 200);
    let first = (0u64..=200).find(|&s| verify_solution_locally(nonce, addr(), U256::from_u64(s), d) == Ok(true));
    assert_eq!(found, first);
    assert_eq!(search_accepted_solution(nonce, addr(), d, 10, 9), None);
    // an impossible difficulty finds nothing
    assert_eq!(search_accepted_solution(nonce, addr(), U256::max_value(), 0, 20), None);
}

#[test]
fn session_target_and_search() {
    let nonce = U256::from_u64(8);
    let session = MiningSession::new(nonce, addr(), U256::from_u64(4));
    assert_eq!(session.target[0], 0x40);
    let found = session.search_range(0, 100);
    let first = (0u64..=100).find(|&s| verify_solution(nonce, addr(), U256::from_u64(s), U256::from_u64(4)));
    assert_eq!(found, first);
    if let Some(s) = found {
        assert!(session.meets_target(U256::from_u64(s)));
    }
    let hard = MiningSession::new(nonce, addr(), two_pow_255());
    assert_eq!(hard.search_range(0, 30), None);
}

#[test]
fn first_worker_solution_takes_lowest_worker() {
    assert_eq!(first_worker_solution(&vec![None, Some(5), Some(2)]), Some(5));
    assert_eq!(first_worker_solution(&vec![Some(9), Some(1)]), Some(9));
    assert_eq!(first_worker_solution(&vec![None, None]), None);
    assert_eq!(first_worker_solution(&vec![]), None);
}

#[test]
fn session_invariant_target() {
    let s = MiningSession::new(U256::one(), addr(), U256::from_u64(2));
    assert_eq!(s.target, compute_target(&U256::from_u64(2)));
}
