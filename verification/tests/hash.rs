use lector::hash::fnv1a_64;

#[test]
fn matches_known_fnv1a_vectors() {
    // Canonical FNV-1a/64 test vectors pin the algorithm so the window id can never drift.
    assert_eq!(fnv1a_64(b""), 0xcbf2_9ce4_8422_2325);
    assert_eq!(fnv1a_64(b"a"), 0xaf63_dc4c_8601_ec8c);
    assert_eq!(fnv1a_64(b"foobar"), 0x8594_4171_f739_67e8);
}

#[test]
fn fnv1a_is_order_sensitive() {
    assert_ne!(fnv1a_64(b"ab"), fnv1a_64(b"ba"));
}
