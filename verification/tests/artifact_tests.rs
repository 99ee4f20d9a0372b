//! Content-addressed artifacts.
use verax::artifact::Artifact;
use verax::hash::blake3;

#[test]
fn artifact_test_artifact_from_data() {
    let data = b"hello world";
    let art = Artifact::new(data);
    assert!(art.verify(data));
    assert!(!art.verify(b"wrong data"));
}

#[test]
fn artifact_test_artifact_deterministic() {
    let a = Artifact::new(b"test");
    let b = Artifact::new(b"test");
    assert_eq!(a.hash(), b.hash());
}

#[test]
fn artifact_test_artifact_verify_strict() {
    let art = Artifact::new(b"correct");
    assert!(art.verify_strict(b"correct").is_ok());
    assert!(art.verify_strict(b"wrong").is_err());
}

#[test]
fn artifact_test_artifact_from_hash() {
    let hash = [0xabu8; 32];
    let art = Artifact::from_hash(hash);
    assert_eq!(art.hash(), &hash);
}

#[test]
fn artifact_hash_is_blake3_of_content() {
    let art = Artifact::new(b"payload bytes");
    assert_eq!(art.hash(), &blake3(b"payload bytes"));
    assert_ne!(art.hash(), &[0u8; 32]);
}

#[test]
fn artifact_verify_strict_error_is_crypto() {
    let art = Artifact::new(b"correct");
    let e = art.verify_strict(b"other").unwrap_err();
    assert!(matches!(e, verax::error::Error::Crypto(_)));
}
