use lau_worldgen::hash2;

#[test]
fn hash2_exact_values() {
    assert_eq!(hash2(42, 1, 2), 3084675772481943101);
    assert_eq!(hash2(0, 0, 0), 0);
    assert_eq!(hash2(7, -1, -5), 13662484278196481112);
}

#[test]
fn hash2_deterministic_and_seed_sensitive() {
    assert_eq!(hash2(1, 3, 4), hash2(1, 3, 4));
    assert_ne!(hash2(1, 3, 4), hash2(2, 3, 4));
}
