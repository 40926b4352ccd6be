use sha2::Digest;
use shortty::hashing::{candidate_code, create_hash};

#[test]
fn known_digest_of_abc() {
    // The well-known SHA-256 digest of "abc".
    assert_eq!(
        create_hash("abc", 64),
        "ba7816bf8f01cfea414140de5dae2223b00361a396177a9cb410ff61f20015ad"
    );
}

#[test]
fn truncation_to_hash_length() {
    assert_eq!(create_hash("abc", 8), "ba7816bf");
    assert_eq!(create_hash("abc", 0), "");
    // Lengths beyond the digest take all 64 digits.
    assert_eq!(create_hash("abc", 200).len(), 64);
}

#[test]
fn digest_is_not_the_input() {
    assert_ne!(create_hash("abc", 64), "abc");
}

#[test]
fn truncations_share_a_prefix() {
    let url = "https://example.com";
    let full = create_hash(url, 64);
    assert_eq!(create_hash(url, 3), &full[..3]);
    assert_eq!(create_hash(url, 8), &full[..8]);
    assert_eq!(create_hash(url, 8).len(), 8);
    assert_eq!(candidate_code(url, 8, 1).len(), 8);
}

#[test]
fn matches_independent_computation() {
    let url = "https://example.com";
    let expected = hex::encode(sha2::Sha256::digest(url.as_bytes()));
    assert_eq!(create_hash(url, 64), expected);
    assert_eq!(create_hash(url, 8), &expected[..8]);
}

#[test]
fn salted_candidates() {
    let url = "https://example.com";
    assert_eq!(candidate_code(url, 8, 0), create_hash(url, 8));
    assert_eq!(candidate_code(url, 8, 1), create_hash("https://example.com1", 8));
    assert_eq!(candidate_code(url, 8, 9), create_hash("https://example.com9", 8));
    let independent = hex::encode(sha2::Sha256::digest("https://example.com3".as_bytes()));
    assert_eq!(candidate_code(url, 8, 3), &independent[..8]);
}
