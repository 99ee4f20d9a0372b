//! BLAKE3 hashing and key derivation.
use verax::hash::{blake3, blake3_derive_key, hash_artifact, verify_content_hash, HASH_SIZE};

#[test]
fn test_blake3_basic() {
    let h = blake3(b"hello");
    assert_eq!(h.len(), 32);
}

#[test]
fn test_blake3_deterministic() {
    let a = blake3(b"test");
    let b = blake3(b"test");
    assert_eq!(a, b);
}

#[test]
fn test_derive_key_deterministic() {
    let a = blake3_derive_key("Axiom-Artifact", b"data");
    let b = blake3_derive_key("Axiom-Artifact", b"data");
    assert_eq!(a, b);
}

#[test]
fn test_derive_key_domain_separation() {
    let a = blake3_derive_key("Axiom-Artifact", b"data");
    let b = blake3_derive_key("Axiom-Statement", b"data");
    assert_ne!(a, b);
}

#[test]
fn test_verify_content_hash() {
    let h = blake3(b"hello");
    assert!(verify_content_hash(&h, b"hello"));
    assert!(!verify_content_hash(&h, b"world"));
}

#[test]
fn test_hash_artifact() {
    let h = hash_artifact(b"some content");
    assert_eq!(h.len(), 32);
}

#[test]
fn blake3_known_vector_of_empty_input() {
    let h = blake3(b"");
    assert_eq!(h[0], 0xaf);
    assert_eq!(h[1], 0x13);
    assert_eq!(h[31], 0x62);
    assert_eq!(HASH_SIZE, 32);
}

#[test]
fn hash_artifact_is_blake3() {
    assert_eq!(hash_artifact(b"abc"), blake3(b"abc"));
    assert_ne!(blake3(b"abc"), [0u8; 32]);
}
