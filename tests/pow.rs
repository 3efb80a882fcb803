use gbft::pow::{calc_difficulty, fnv_hash, KeccakHasher, FNV_PRIME};

#[test]
fn test_calc_difficulty() {
    let hash = [
        0xf5, 0x7e, 0x6f, 0x3a, 0xcf, 0xc0, 0xdd, 0x4b, 0x5b, 0xf2, 0xbe, 0xe4, 0x0a, 0xb3,
        0x35, 0x8a, 0xa6, 0x87, 0x73, 0xa8, 0xd0, 0x9f, 0x5e, 0x59, 0x5e, 0xab, 0x55, 0x94,
        0x05, 0x52, 0x7d, 0x72,
    ];
    let mix_hash = [
        0x1f, 0xff, 0x04, 0xce, 0xc9, 0x41, 0x73, 0xfd, 0x59, 0x1e, 0x3d, 0x89, 0x60, 0xce,
        0x6b, 0xdf, 0x8b, 0x19, 0x71, 0x04, 0x8c, 0x71, 0xff, 0x93, 0x7b, 0xb2, 0xd3, 0x2a,
        0x64, 0x31, 0xab, 0x6d,
    ];
    let nonce = 0xd7b3ac70a301a249;
    let boundary_good = [
        0x00, 0x00, 0x00, 0x00, 0x00, 0x01, 0x3e, 0x9b, 0x6c, 0x69, 0xbc, 0x2c, 0xe2, 0xa2,
        0x4a, 0x8e, 0x95, 0x69, 0xef, 0xc7, 0xd7, 0x1b, 0x33, 0x35, 0xdf, 0x36, 0x8c, 0x9a,
        0xe9, 0x7e, 0x53, 0x84,
    ];
    assert_eq!(calc_difficulty(&hash, nonce, &mix_hash)[..], boundary_good[..]);
    let boundary_bad = [
        0x00, 0x00, 0x00, 0x00, 0x00, 0x01, 0x3a, 0x9b, 0x6c, 0x69, 0xbc, 0x2c, 0xe2, 0xa2,
        0x4a, 0x8e, 0x95, 0x69, 0xef, 0xc7, 0xd7, 0x1b, 0x33, 0x35, 0xdf, 0x36, 0x8c, 0x9a,
        0xe9, 0x7e, 0x53, 0x84,
    ];
    assert!(calc_difficulty(&hash, nonce, &mix_hash)[..] != boundary_bad[..]);
}

#[test]
fn keccak_of_empty_input() {
    let expected = [
        0xc5, 0xd2, 0x46, 0x01, 0x86, 0xf7, 0x23, 0x3c, 0x92, 0x7e, 0x7d, 0xb2, 0xdc, 0xc7,
        0x03, 0xc0, 0xe5, 0x00, 0xb6, 0x53, 0xca, 0x82, 0x27, 0x3b, 0x7b, 0xfa, 0xd8, 0x04,
        0x5d, 0x85, 0xa4, 0x70,
    ];
    assert_eq!(KeccakHasher::hash(&[]), expected);
}

#[test]
fn fnv_step_values() {
    assert_eq!(fnv_hash(1, 2), FNV_PRIME ^ 2);
    assert_eq!(fnv_hash(0, 7), 7);
    assert_eq!(fnv_hash(0x1000_0000, 0), 0x3000_0000);
}
