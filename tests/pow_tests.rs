use aegis_node::encoding::push_decimal;
use aegis_node::pow::{
    meets_difficulty, proof_hash, proof_of_deep_encryption, search_region, MEMORY_SIZE,
    WINDOW_SIZE,
};

fn region() -> Vec<u8> {
    (0..100u32).map(|i| (i % 251) as u8).collect()
}

#[test]
fn decimal_digits() {
    let mut out = b"x".to_vec();
    push_decimal(0, &mut out);
    assert_eq!(out, b"x0".to_vec());
    let mut out = Vec::new();
    push_decimal(10, &mut out);
    assert_eq!(out, b"10".to_vec());
    let mut out = Vec::new();
    push_decimal(12345, &mut out);
    assert_eq!(out, b"12345".to_vec());
    let mut out = Vec::new();
    push_decimal(u64::MAX, &mut out);
    assert_eq!(out, b"18446744073709551615".to_vec());
}

#[test]
fn difficulty_counts_leading_zero_characters() {
    assert!(meets_difficulty("00ab", 2));
    assert!(meets_difficulty("00ab", 0));
    assert!(!meets_difficulty("0a0b", 2));
    assert!(!meets_difficulty("00", 3));
    assert!(meets_difficulty("", 0));
}

#[test]
fn proof_hash_exact_values() {
    let r = region();
    assert_eq!(
        proof_hash("abc", 0, &r),
        "f224f2bbbdcc593a5faaa79c3296e696974b0d6a1bfd259de7eed354f3f85ee4"
    );
    // nonce 70 selects the window at 70 mod 68 = 2
    assert_eq!(
        proof_hash("abc", 70, &r),
        "571ff6a1fa67c5d4d6856ea83f90a1055d727ad47a06420437e1d24d4a263a27"
    );
}

#[test]
fn search_returns_the_first_satisfying_nonce() {
    let r = region();
    let prev = "GENESIS_HASH_00000000000000";
    let (n, h) = search_region(prev, 2, &r).unwrap();
    assert_eq!(n, 294);
    assert_eq!(h, "0063ad831d74a17a0dd2425c9b90015d2f2d9f8a6369606a710fab3d40bfc807");
    for m in 0..n {
        assert!(!proof_hash(prev, m, &r).starts_with("00"));
    }
    let (n1, h1) = search_region(prev, 1, &r).unwrap();
    assert_eq!(n1, 0);
    assert_eq!(h1, "07d5c74cb7d060141fbde5d53c99e7654e205a1474378ed5a84ea63b85d9554e");
}

#[test]
fn random_region_search_meets_difficulty() {
    assert!(MEMORY_SIZE > WINDOW_SIZE);
    let (_, h) = proof_of_deep_encryption("tip", 2).unwrap();
    assert_eq!(h.len(), 64);
    assert!(h.starts_with("00"));
}
