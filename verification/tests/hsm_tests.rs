//! Key-store abstraction: algorithms, key references and the stores that
//! hold no keys.
use verax::error::Error;
use ed25519_dalek::Verifier;
use verax::hash::blake3;
use verax::cose::ed25519_verifying_key;
use verax::hsm::{
    Algorithm, KeyAttributes, KeyMaterial, KeyReference, NullKeyStore, Pkcs11KeyStore, SecureKeyStore, SoftwareKeyStore,
    TpmKeyStore,
};

#[test]
fn test_null_keystore_returns_error() {
    let mut store = NullKeyStore;
    assert!(store.generate(Algorithm::Ed25519, KeyAttributes::default()).is_err());
}

#[test]
fn test_algorithm_cose_roundtrip() {
    for alg in [Algorithm::Ed25519, Algorithm::MlDsa65, Algorithm::Composite] {
        let id = alg.cose_alg_id();
        assert_eq!(Algorithm::from_cose_alg_id(id), Some(alg));
    }
    assert_eq!(Algorithm::from_cose_alg_id(0), None);
}

#[test]
fn hsm_cose_alg_ids() {
    assert_eq!(Algorithm::Ed25519.cose_alg_id(), -8);
    assert_eq!(Algorithm::MlDsa65.cose_alg_id(), -38);
    assert_eq!(Algorithm::Composite.cose_alg_id(), -39);
}

#[test]
fn hsm_null_store_refuses_everything() {
    let mut store = NullKeyStore;
    let r = KeyReference::new_ed25519([1u8; 32]);
    assert!(matches!(store.sign(&r, b"m"), Err(Error::Crypto(_))));
    assert!(matches!(store.public_key(&r), Err(Error::Crypto(_))));
    assert!(!store.is_valid(&r));
    assert!(matches!(store.delete(&r), Err(Error::Crypto(_))));
    assert!(store.list_keys().is_empty());
}

#[test]
fn hsm_unsupported_devices_fail_with_io() {
    assert!(matches!(Pkcs11KeyStore::new("/usr/lib/softhsm.so", 0, "1234"), Err(Error::Io(_))));
    assert!(matches!(TpmKeyStore::new(), Err(Error::Io(_))));
}

#[test]
fn hsm_key_reference_constructors_and_zeroize() {
    let mut r = KeyReference::new_composite([9u8; 32]);
    assert_eq!(r.algorithm, Algorithm::Composite);
    assert_eq!(KeyReference::new_mldsa65([2u8; 32]).algorithm, Algorithm::MlDsa65);
    r.zeroize();
    assert_eq!(r.kid, [0u8; 32]);
    assert_eq!(r.algorithm, Algorithm::Composite);
    let a = KeyAttributes::default();
    assert_eq!(a.algorithm, Algorithm::Ed25519);
    assert!(!a.exportable && !a.extractable);
}

#[test]
fn test_software_hsm_generate_ed25519() {
    let mut store = SoftwareKeyStore::new();
    let ref1 = store.generate(Algorithm::Ed25519, KeyAttributes::default()).unwrap();
    let ref2 = store.generate(Algorithm::Ed25519, KeyAttributes::default()).unwrap();
    assert_ne!(ref1.kid, ref2.kid, "two generated keys differ");
    assert!(store.is_valid(&ref1));
    assert_eq!(store.list_keys().len(), 2);
}

#[test]
fn test_software_hsm_sign_verify_ed25519() {
    let mut store = SoftwareKeyStore::new();
    let key_ref = store.generate(Algorithm::Ed25519, KeyAttributes::default()).unwrap();
    let msg = b"hello hsm";
    let sig_bytes = store.sign(&key_ref, msg).unwrap();
    assert_eq!(sig_bytes.len(), 64);

    let pk_bytes = store.public_key(&key_ref).unwrap();
    let pk = ed25519_dalek::VerifyingKey::from_bytes(&{
        let mut arr = [0u8; 32];
        arr.copy_from_slice(&pk_bytes);
        arr
    })
    .unwrap();
    let sig = ed25519_dalek::Signature::from_bytes(&{
        let mut arr = [0u8; 64];
        arr.copy_from_slice(&sig_bytes);
        arr
    });
    pk.verify(msg, &sig).unwrap();
}

#[test]
fn test_software_hsm_delete_key() {
    let mut store = SoftwareKeyStore::new();
    let key_ref = store.generate(Algorithm::Ed25519, KeyAttributes::default()).unwrap();
    assert!(store.is_valid(&key_ref));
    store.delete(&key_ref).unwrap();
    assert!(!store.is_valid(&key_ref));
}

#[test]
fn hsm_software_store_kids_lengths_and_order() {
    let mut store = SoftwareKeyStore::new();
    let a = store.generate(Algorithm::MlDsa65, KeyAttributes::default()).unwrap();
    let b = store.generate(Algorithm::Composite, KeyAttributes::default()).unwrap();
    let c = store.generate(Algorithm::Ed25519, KeyAttributes::default()).unwrap();
    assert_eq!(a.algorithm, Algorithm::MlDsa65);
    assert_eq!(b.algorithm, Algorithm::Composite);
    let ml_pk = store.public_key(&a).unwrap();
    assert_eq!(ml_pk.len(), 1952);
    assert_eq!(a.kid, blake3(&ml_pk));
    let comp_pk = store.public_key(&b).unwrap();
    assert_eq!(comp_pk.len(), 32 + 1952);
    let mut reordered = comp_pk[32..].to_vec();
    reordered.extend_from_slice(&comp_pk[..32]);
    assert_eq!(b.kid, blake3(&reordered));
    assert_eq!(store.public_key(&c).unwrap().len(), 32);
    assert_eq!(store.sign(&b, b"m").unwrap().len(), 3373);
    assert_eq!(store.sign(&a, b"m").unwrap().len(), 3309);
    let listed = store.list_keys();
    assert_eq!(listed.len(), 3);
    assert!(listed[0].kid < listed[1].kid && listed[1].kid < listed[2].kid);
    assert!(store.delete(&c).is_ok());
    assert!(matches!(store.delete(&c), Err(Error::Crypto(_))));
    assert!(matches!(store.sign(&c, b"m"), Err(Error::Crypto(_))));
    assert!(matches!(store.public_key(&c), Err(Error::Crypto(_))));
    assert_eq!(store.list_keys().len(), 2);
}

#[test]
fn hsm_store_material_under_its_identifier() {
    let seed = [0x31u8; 32];
    let material = KeyMaterial::Ed25519(seed);
    assert_eq!(material.algorithm(), Algorithm::Ed25519);
    let mut store = SoftwareKeyStore::new();
    let r = store.store_material(material, KeyAttributes::default()).unwrap();
    assert_eq!(r.kid, blake3(&ed25519_verifying_key(&seed)));
    assert_eq!(r.algorithm, Algorithm::Ed25519);
    assert_eq!(store.public_key(&r).unwrap(), ed25519_verifying_key(&seed).to_vec());
    // the same material again: refused, store unchanged
    let again = store.store_material(KeyMaterial::Ed25519(seed), KeyAttributes::default());
    assert!(matches!(again, Err(Error::Crypto(_))));
    assert_eq!(store.list_keys().len(), 1);
    assert_eq!(KeyMaterial::Composite(seed, seed).algorithm(), Algorithm::Composite);
}
