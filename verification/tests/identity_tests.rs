use std::collections::HashSet;

use shipc::identity::{encode_identity, generate};

fn is_b32_lower(b: u8) -> bool {
    (b'a'..=b'z').contains(&b) || (b'2'..=b'7').contains(&b)
}

#[test]
fn identity_is_13_lowercase_base32_bytes() {
    let id = generate();
    assert_eq!(id.len(), 13);
    assert!(id.iter().all(|&b| is_b32_lower(b)));
}

#[test]
fn ten_thousand_identities_do_not_collide() {
    let mut seen: HashSet<Vec<u8>> = HashSet::new();
    for _ in 0..10_000 {
        seen.insert(generate());
    }
    assert_eq!(seen.len(), 10_000);
}

#[test]
fn encode_matches_unpadded_lowercase_base32() {
    let bytes = vec![1u8, 2, 3, 4, 5, 6, 7, 8];
    let ours = encode_identity(&bytes);
    let theirs = base32::encode(base32::Alphabet::Rfc4648Lower { padding: false }, &bytes)
        .into_bytes();
    assert_eq!(ours, theirs);
    assert_eq!(ours.len(), 13);
}

#[test]
fn encode_of_zero_bytes_is_all_a() {
    let ours = encode_identity(&vec![0u8; 8]);
    assert_eq!(ours, b"aaaaaaaaaaaaa".to_vec());
}

#[test]
fn two_calls_differ_with_overwhelming_probability() {
    let a = generate();
    let b = generate();
    let c = generate();
    assert!(a != b || b != c);
}
