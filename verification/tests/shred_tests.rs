//! Crypto-shredding: encryption of personal data, commitments, key wrapping
//! and the erasure protocol.
use hpke::kem::X25519HkdfSha256;
use hpke::{Kem, Serializable};
use verax::cbor::AxiomPayload;
use verax::cbor::Value;
use verax::hash;
use verax::predicate::Predicate;
use verax::shred::{
    create_consent_payload, decrypt_pii, encrypt_pii, encrypt_pii_with_nonce, erasure_protocol, hash_ciphertext, hpke_decrypt_key,
    hpke_encrypt_key, hpke_public_key, shredding_commit, ShreddingKey, NONCE_SIZE,
};

fn x25519_keypair(ikm: &[u8; 32]) -> ([u8; 32], [u8; 32]) {
    let (sk, pk) = X25519HkdfSha256::derive_keypair(ikm);
    let sk_bytes: [u8; 32] = sk.to_bytes().as_slice().try_into().unwrap();
    let pk_bytes: [u8; 32] = pk.to_bytes().as_slice().try_into().unwrap();
    (sk_bytes, pk_bytes)
}

#[test]
fn test_encrypt_decrypt_roundtrip() {
    let key = ShreddingKey::generate();
    let data = b"sensitive personal data";
    let encrypted = encrypt_pii(&key, data).unwrap();
    let decrypted = decrypt_pii(&key, &encrypted).unwrap();
    assert_eq!(decrypted, data);
}

#[test]
fn shred_test_wrong_key_fails() {
    let key = ShreddingKey::generate();
    let wrong_key = ShreddingKey::generate();
    let data = b"test data";
    let encrypted = encrypt_pii(&key, data).unwrap();
    assert!(decrypt_pii(&wrong_key, &encrypted).is_err());
}

#[test]
fn test_shredding_commit() {
    let key = ShreddingKey::generate();
    let data = b"PII data";
    let (ciphertext, commitment) = shredding_commit(&key, data).unwrap();

    let expected_commitment = hash_ciphertext(&ciphertext);
    assert_eq!(commitment, expected_commitment);
}

#[test]
fn test_key_zeroize() {
    let mut key = ShreddingKey::from_bytes(&[0xabu8; 32]).unwrap();
    let key_bytes = *key.to_bytes();
    key.zeroize();
    assert_ne!(key.to_bytes(), &key_bytes);
    assert_eq!(key.to_bytes(), &[0u8; 32]);
}

#[test]
fn test_encrypted_different_each_time() {
    let key = ShreddingKey::generate();
    let data = b"same plaintext";
    let e1 = encrypt_pii(&key, data).unwrap();
    let e2 = encrypt_pii(&key, data).unwrap();
    assert_ne!(e1, e2);
}

#[test]
fn test_key_id_stable() {
    let key = ShreddingKey::from_bytes(&[0x42u8; 32]).unwrap();
    let id1 = key.key_id();
    let id2 = key.key_id();
    assert_eq!(id1, id2);
    assert_eq!(id1.len(), 32);
}

#[test]
fn test_key_id_differs_for_different_keys() {
    let key1 = ShreddingKey::from_bytes(&[0x01u8; 32]).unwrap();
    let key2 = ShreddingKey::from_bytes(&[0x02u8; 32]).unwrap();
    assert_ne!(key1.key_id(), key2.key_id());
}

#[test]
fn test_hpke_key_wrap_roundtrip() {
    let (sk_bytes, pk_bytes) = x25519_keypair(&[0x42u8; 32]);

    let shred_key = ShreddingKey::generate();
    let original_key_bytes = *shred_key.to_bytes();

    let (encapped, encrypted) = hpke_encrypt_key(&pk_bytes, &shred_key).unwrap();

    let decrypted_key = hpke_decrypt_key(&sk_bytes, &encapped, &encrypted).unwrap();

    assert_eq!(&original_key_bytes, decrypted_key.to_bytes());
}

#[test]
fn test_hpke_wrong_key_fails() {
    let (_, pk1_bytes) = x25519_keypair(&[0x01u8; 32]);
    let (sk2_bytes, _) = x25519_keypair(&[0x02u8; 32]);

    let shred_key = ShreddingKey::generate();
    let (encapped, encrypted) = hpke_encrypt_key(&pk1_bytes, &shred_key).unwrap();

    let result = hpke_decrypt_key(&sk2_bytes, &encapped, &encrypted);
    assert!(result.is_err());
}

#[test]
fn test_erasure_protocol_zeroizes_key() {
    let key = ShreddingKey::from_bytes(&[0x42u8; 32]).unwrap();
    let data = b"PII data";
    let (ciphertext, _) = shredding_commit(&key, data).unwrap();
    let key_id_before = key.key_id();

    let record = erasure_protocol(key, &ciphertext, 1000);
    assert_eq!(record.key_id, key_id_before);
    assert_eq!(record.ciphertext_commitment, hash::blake3(&ciphertext));
    assert_eq!(record.timestamp, 1000);
}

#[test]
fn test_consent_payload_no_pii() {
    let policy_hash = [0x01u8; 32];
    let user_did = b"did:axiom:abc123";
    let ts = 1700000000u64;
    let scope = b"research_consent_v2";

    let payload = create_consent_payload(policy_hash, user_did, ts, scope);
    assert_eq!(payload.subject, policy_hash);
    assert_eq!(payload.predicate, Predicate::CompliesWith);
    assert_eq!(payload.timestamp, Some(ts));
    assert!(payload.extensions.is_some());

    let exts = payload.extensions.unwrap();
    assert_eq!(exts.len(), 3);
    assert!(exts.iter().all(|(k, _)| *k >= 100));
}

#[test]
fn test_consent_payload_encodes_and_decodes() {
    let policy_hash = [0xabu8; 32];
    let user_did = b"did:example:user123";
    let ts = 1700000000u64;
    let scope = b"data_processing";

    let payload = create_consent_payload(policy_hash, user_did, ts, scope);
    let encoded = payload.encode();
    let decoded = AxiomPayload::decode(&encoded).unwrap();
    assert_eq!(decoded.subject, policy_hash);
    assert_eq!(decoded.timestamp, Some(ts));
}

#[test]
fn shred_key_from_bytes_rejects_wrong_length() {
    assert!(ShreddingKey::from_bytes(&[0u8; 31]).is_err());
    assert!(ShreddingKey::from_bytes(&[0u8; 33]).is_err());
    let k = ShreddingKey::from_bytes(&[7u8; 32]).unwrap();
    assert_eq!(k.to_bytes(), &[7u8; 32]);
    assert_eq!(k.key_id(), hash::blake3(&[7u8; 32]));
}

#[test]
fn shred_decrypt_rejects_short_and_tampered_input() {
    let key = ShreddingKey::from_bytes(&[9u8; 32]).unwrap();
    assert!(decrypt_pii(&key, &[0u8; NONCE_SIZE - 1]).is_err());
    let mut ct = encrypt_pii(&key, b"abc").unwrap();
    assert_eq!(ct.len(), NONCE_SIZE + 3 + 16);
    let last = ct.len() - 1;
    ct[last] ^= 1;
    let e = decrypt_pii(&key, &ct).unwrap_err();
    assert!(matches!(e, verax::error::Error::Crypto(_)));
}

#[test]
fn shred_consent_extensions_hold_the_inputs() {
    let payload = create_consent_payload([3u8; 32], b"did:x", 5, b"scope");
    let exts = payload.extensions.unwrap();
    assert_eq!(exts[0], (100, Value::Bstr(b"did:x".to_vec())));
    assert_eq!(exts[1], (101, Value::Uint(5)));
    assert_eq!(exts[2], (102, Value::Bstr(b"scope".to_vec())));
}

#[test]
fn shred_hpke_decrypt_rejects_garbage() {
    let (sk, _) = x25519_keypair(&[5u8; 32]);
    assert!(hpke_decrypt_key(&sk, &[1u8; 32], &[2u8; 48]).is_err());
}

#[test]
fn shred_hpke_public_key_matches_derived_pair() {
    let (sk, pk) = x25519_keypair(&[0x33u8; 32]);
    assert_eq!(hpke_public_key(&sk), pk);
    assert_ne!(hpke_public_key(&sk), sk);
    let key = ShreddingKey::from_bytes(&[0x5au8; 32]).unwrap();
    let (enc, ct) = hpke_encrypt_key(&hpke_public_key(&sk), &key).unwrap();
    assert_eq!(hpke_decrypt_key(&sk, &enc, &ct).unwrap().to_bytes(), &[0x5au8; 32]);
}

#[test]
fn shred_encrypt_with_given_nonce_layout() {
    let key = ShreddingKey::from_bytes(&[0x5au8; 32]).unwrap();
    let nonce = [0x11u8; 24];
    let plaintext = b"alice@example.com";
    let out = encrypt_pii_with_nonce(&key, &nonce, plaintext).unwrap();
    assert_eq!(out.len(), NONCE_SIZE + plaintext.len() + 16);
    assert_eq!(&out[..NONCE_SIZE], &nonce);
    assert_ne!(&out[NONCE_SIZE..NONCE_SIZE + plaintext.len()], plaintext.as_slice());
    assert_eq!(decrypt_pii(&key, &out).unwrap(), plaintext.to_vec());
    // the same key, nonce and plaintext give the same bytes
    assert_eq!(encrypt_pii_with_nonce(&key, &nonce, plaintext).unwrap(), out);
    // a fresh nonce gives the same length
    assert_eq!(encrypt_pii(&key, plaintext).unwrap().len(), out.len());
}
