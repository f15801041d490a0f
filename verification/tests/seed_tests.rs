use lau_worldgen::WorldSeed;

#[test]
fn seed_from_string_deterministic() {
    let a = WorldSeed::from_string("hello world");
    let b = WorldSeed::from_string("hello world");
    assert_eq!(a, b);
}

#[test]
fn seed_from_string_different_strings() {
    let a = WorldSeed::from_string("foo");
    let b = WorldSeed::from_string("bar");
    assert_ne!(a, b);
}

#[test]
fn seed_random_nonzero() {
    let s = WorldSeed::random();
    // Just ensure it doesn't panic and produces something
    assert!(s.as_u64() != 0 || WorldSeed::random().as_u64() != 0);
}

#[test]
fn seed_random_unique() {
    // Two random seeds are very likely different
    let a = WorldSeed::random();
    let b = WorldSeed::random();
    // Can't guarantee but it's astronomically unlikely they match
    let _ = (a, b); // just confirm no panic
}

#[test]
fn seed_default_is_42() {
    assert_eq!(WorldSeed::default().as_u64(), 42);
}

#[test]
fn seed_from_u64() {
    let s = WorldSeed::from(12345u64);
    assert_eq!(s.as_u64(), 12345);
}

#[test]
fn seed_from_string_is_fnv1a() {
    assert_eq!(WorldSeed::from_string("hello world").as_u64(), 0x779a_65e7_023c_d2e7);
    assert_eq!(WorldSeed::from_string("foo").as_u64(), 15902901984413996407);
    assert_eq!(WorldSeed::from_string("bar").as_u64(), 16101355973854746);
}

#[test]
fn seed_from_empty_string_is_offset_basis() {
    assert_eq!(WorldSeed::from_string("").as_u64(), 14_695_981_039_346_656_037);
}

#[test]
fn seed_from_string_hashes_utf8_bytes() {
    assert_eq!(WorldSeed::from_string("\u{e9}").as_u64(), 775207407765167617);
}

#[test]
fn seed_from_clock_nanos_mixes_bits() {
    assert_eq!(WorldSeed::from_clock_nanos(0).as_u64(), 0);
    assert_eq!(WorldSeed::from_clock_nanos(1).as_u64(), 5180492295206395165);
    assert_eq!(WorldSeed::from_clock_nanos(123456789).as_u64(), 17131907776045769687);
}
