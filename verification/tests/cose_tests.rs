//! COSE_Sign1 envelopes signed with Ed25519, ML-DSA-65 and the composite.
use verax::cose::{
    composite_pubkey, composite_sign, composite_verify, ed25519_verifying_key, extract_kid, extract_payload,
    extract_protected, extract_signature, extract_unprotected, mldsa65_verifying_key, parse_and_verify_composite,
    parse_and_verify_ed25519, parse_and_verify_mldsa65_only, parse_cose_sign1, sign_composite, sign_ed25519,
    sign_mldsa65_only, try_composite_sign, CompositeSignature, VerificationMode, COMPOSITE_SIG_SIZE,
};
use verax::error::Error;
use verax::hash::blake3;

fn test_ed_keypair() -> ([u8; 32], [u8; 32]) {
    let seed = [0x42u8; 32];
    let vk = ed25519_verifying_key(&seed);
    (seed, vk)
}

fn counting_seed() -> [u8; 32] {
    let mut ml_seed = [0u8; 32];
    for (i, b) in ml_seed.iter_mut().enumerate() {
        *b = i as u8;
    }
    ml_seed
}

#[test]
fn test_sign_verify_ed25519_roundtrip() {
    let (sk, vk) = test_ed_keypair();
    let payload = b"test payload data";
    let cose = sign_ed25519(payload, &sk).unwrap();
    let extracted = parse_and_verify_ed25519(&cose, &vk).unwrap();
    assert_eq!(extracted, payload);
}

#[test]
fn test_extract_payload() {
    let (sk, _vk) = test_ed_keypair();
    let payload = b"hello verax";
    let cose = sign_ed25519(payload, &sk).unwrap();
    let ext = extract_payload(&cose).unwrap();
    assert_eq!(ext, payload);
}

#[test]
fn cose_test_wrong_key_fails() {
    let (sk, _vk) = test_ed_keypair();
    let bad_seed = [0x99u8; 32];
    let bad_vk = ed25519_verifying_key(&bad_seed);
    let payload = b"test";
    let cose = sign_ed25519(payload, &sk).unwrap();
    assert!(parse_and_verify_ed25519(&cose, &bad_vk).is_err());
}

#[test]
fn test_tampered_signature_fails() {
    let (sk, vk) = test_ed_keypair();
    let payload = b"test";
    let mut cose = sign_ed25519(payload, &sk).unwrap();
    let len = cose.len();
    cose[len - 1] ^= 0x01;
    assert!(parse_and_verify_ed25519(&cose, &vk).is_err());
}

#[test]
fn test_composite_sign_verify_roundtrip() {
    let ed_sk = [0x42u8; 32];
    let ed_vk = ed25519_verifying_key(&ed_sk);

    let ml_sk = counting_seed();
    let ml_vk = mldsa65_verifying_key(&ml_sk);

    let pubkey = composite_pubkey(&ed_vk, &ml_vk);
    let payload = b"composite test payload";

    let cose = sign_composite(payload, &ed_sk, &ml_sk).unwrap();
    let extracted = parse_and_verify_composite(&cose, &pubkey, VerificationMode::Hybrid).unwrap();
    assert_eq!(extracted, payload);
}

#[test]
fn test_composite_serialization() {
    let ed_sk = [0x42u8; 32];
    let ml_sk = counting_seed();

    let data = b"test data for composite";
    let sig = composite_sign(&ed_sk, &ml_sk, data);
    let bytes = sig.to_bytes();
    let decoded = CompositeSignature::from_bytes(&bytes).unwrap();
    assert_eq!(sig, decoded);
}

#[test]
fn test_mldsa65_sign_verify_roundtrip() {
    let mut ml_sk = [0u8; 32];
    ml_sk[0] = 0xaa;
    let ml_vk = mldsa65_verifying_key(&ml_sk);

    let payload = b"ML-DSA-65 pure test payload";
    let cose = sign_mldsa65_only(payload, &ml_sk).unwrap();
    let extracted = parse_and_verify_mldsa65_only(&cose, &ml_vk).unwrap();
    assert_eq!(extracted, payload);
}

#[test]
fn test_mldsa65_wrong_key_fails() {
    let mut sk_a = [0u8; 32];
    sk_a[0] = 0xaa;
    let mut sk_b = [0u8; 32];
    sk_b[0] = 0xbb;
    let vk_b = mldsa65_verifying_key(&sk_b);

    let payload = b"wrong key test";
    let cose = sign_mldsa65_only(payload, &sk_a).unwrap();
    let result = parse_and_verify_mldsa65_only(&cose, &vk_b);
    assert_eq!(result, Err(Error::InvalidSignature));
}

#[test]
fn test_mldsa65_tampered_cose_fails() {
    let mut ml_sk = [0u8; 32];
    ml_sk[0] = 0xcc;
    let ml_vk = mldsa65_verifying_key(&ml_sk);

    let payload = b"tamper test";
    let mut cose = sign_mldsa65_only(payload, &ml_sk).unwrap();
    if cose.len() > 15 {
        cose[15] ^= 0x01;
    }
    let result = parse_and_verify_mldsa65_only(&cose, &ml_vk);
    assert_eq!(result, Err(Error::InvalidSignature));
}

#[test]
fn test_malformed_cose_fails() {
    assert!(parse_cose_sign1(b"").is_err());
    assert!(parse_cose_sign1(b"\x81\x01").is_err());
}

#[test]
fn cose_ed25519_envelope_layout() {
    let (sk, vk) = test_ed_keypair();
    let cose = sign_ed25519(b"abc", &sk).unwrap();
    // tag 98, array of four
    assert_eq!(&cose[..3], &[0xd8, 0x62, 0x84]);
    assert_eq!(extract_unprotected(&cose).unwrap(), vec![0xa0]);
    assert_eq!(extract_signature(&cose).unwrap().len(), 64);
    let kid = extract_kid(&cose).unwrap();
    assert_eq!(kid, vk.to_vec());
    let prot = extract_protected(&cose).unwrap();
    // {1: -8, 4: kid}
    assert_eq!(&prot[..5], &[0xa2, 0x01, 0x27, 0x04, 0x58]);
    let (p, u, pl, sg) = parse_cose_sign1(&cose).unwrap();
    assert_eq!(p, prot);
    assert_eq!(u, vec![0xa0]);
    assert_eq!(pl, b"abc".to_vec());
    assert_eq!(sg.len(), 64);
}

#[test]
fn cose_composite_modes_and_kid() {
    let ed_sk = [0x11u8; 32];
    let ml_sk = counting_seed();
    let ed_vk = ed25519_verifying_key(&ed_sk);
    let ml_vk = mldsa65_verifying_key(&ml_sk);
    let pubkey = composite_pubkey(&ed_vk, &ml_vk);
    let cose = sign_composite(b"m", &ed_sk, &ml_sk).unwrap();
    for mode in [VerificationMode::Hybrid, VerificationMode::ClassicalOnly, VerificationMode::PQOnly] {
        assert_eq!(parse_and_verify_composite(&cose, &pubkey, mode).unwrap(), b"m".to_vec());
    }
    assert_eq!(extract_signature(&cose).unwrap().len(), COMPOSITE_SIG_SIZE);
    let mut both = ed_vk.to_vec();
    both.extend_from_slice(&ml_vk);
    assert_eq!(extract_kid(&cose).unwrap(), blake3(&both).to_vec());

    let other = composite_pubkey(&ed25519_verifying_key(&[0x12u8; 32]), &ml_vk);
    assert!(parse_and_verify_composite(&cose, &other, VerificationMode::Hybrid).is_err());
    assert!(parse_and_verify_composite(&cose, &other, VerificationMode::ClassicalOnly).is_err());
    assert!(parse_and_verify_composite(&cose, &other, VerificationMode::PQOnly).is_ok());
}

#[test]
fn cose_composite_verify_direct() {
    let ed_sk = [0x21u8; 32];
    let ml_sk = [0x22u8; 32];
    let pk = composite_pubkey(&ed25519_verifying_key(&ed_sk), &mldsa65_verifying_key(&ml_sk));
    let sig = composite_sign(&ed_sk, &ml_sk, b"data");
    assert!(composite_verify(&pk, b"data", &sig, VerificationMode::Hybrid).is_ok());
    assert!(composite_verify(&pk, b"datb", &sig, VerificationMode::Hybrid).is_err());
    assert!(CompositeSignature::from_bytes(&[0u8; 10]).is_err());
}

#[test]
fn cose_try_composite_sign_matches_composite_sign() {
    let ed_sk = [0x21u8; 32];
    let ml_sk = [0x22u8; 32];
    let pk = composite_pubkey(&ed25519_verifying_key(&ed_sk), &mldsa65_verifying_key(&ml_sk));
    let sig = try_composite_sign(&ed_sk, &ml_sk, b"data").expect("ML-DSA-65 signs");
    let direct = composite_sign(&ed_sk, &ml_sk, b"data");
    assert_eq!(sig.ed25519_sig, direct.ed25519_sig);
    assert!(composite_verify(&pk, b"data", &sig, VerificationMode::Hybrid).is_ok());
    assert!(composite_verify(&pk, b"other", &sig, VerificationMode::PQOnly).is_err());
}

#[test]
fn cose_parse_rejects_truncated_and_untagged_garbage() {
    let (sk, _) = test_ed_keypair();
    let cose = sign_ed25519(b"x", &sk).unwrap();
    let truncated = &cose[..cose.len() - 1];
    assert!(parse_cose_sign1(truncated).is_err());
    // the untagged form parses too
    let (_, _, payload, _) = parse_cose_sign1(&cose[2..]).unwrap();
    assert_eq!(payload, b"x".to_vec());
    assert!(parse_cose_sign1(&[0x83, 0x40, 0xa0, 0x40]).is_err());
}
