//! Statement verification against a trust store: signatures, transparency
//! anchors, revocation, lineage, key rotation, and the threat scenarios.
use ed25519_dalek::Signer;
use sha2::Digest;
use std::collections::BTreeMap;
use verax::cbor::{decode_map_len, encode_uint_head, skip_value, AxiomPayload};
use verax::cose::{
    ed25519_verifying_key, extract_payload, extract_protected, extract_signature, mldsa65_verifying_key,
    parse_and_verify_composite, parse_and_verify_ed25519, CompositePublicKey, VerificationMode,
};
use verax::ct::{LogInclusionProof, SignedTreeHead, TemporalAnchor};
use verax::error::Error;
use verax::hash::blake3;
use verax::predicate::Predicate;
use verax::statement::Statement;
use verax::verify::{
    check_lineage_step, resolve_rotated_key_default, resolve_rotated_key_with_replies, validate_algorithm_kid_binding, verify_statement, verify_statement_ed25519,
    verify_statement_with_replies, verify_statement_with_warnings, RotationReply, StoreReplies, TrustStore, Warning,
};

/// A store that answers every key query with one key and trusts one log.
struct SimpleTrustStore {
    key: [u8; 32],
    log_key: [u8; 32],
    chain: BTreeMap<[u8; 32], Vec<u8>>,
    revoked: Option<bool>,
}

impl SimpleTrustStore {
    fn new(key: [u8; 32], log_key: [u8; 32]) -> Self {
        SimpleTrustStore { key, log_key, chain: BTreeMap::new(), revoked: Some(false) }
    }
}

impl TrustStore for SimpleTrustStore {
    fn resolve_key(&self, _kid: &[u8]) -> Option<[u8; 32]> {
        Some(self.key)
    }

    fn resolve_composite_key(&self, _kid: &[u8]) -> Option<CompositePublicKey> {
        None
    }

    fn fetch_statement(&self, hash: &[u8; 32]) -> Option<Vec<u8>> {
        self.chain.get(hash).cloned()
    }

    fn is_revoked_in_log(&self, _stmt_hash: &[u8; 32], _after: u64) -> Option<bool> {
        self.revoked
    }

    fn resolve_log_pubkey(&self, log_id: &[u8; 32], candidate_key: &[u8; 32]) -> Option<[u8; 32]> {
        let computed = blake3(&self.log_key);
        if &computed == log_id && &self.log_key == candidate_key {
            Some(self.log_key)
        } else {
            None
        }
    }

    fn resolve_mldsa65_key(&self, _kid: &[u8]) -> Option<[u8; 1952]> {
        None
    }

    fn resolve_rotated_key(&self, kid: &[u8]) -> Option<[u8; 32]> {
        self.resolve_key(kid)
    }
}

fn keypair(seed: [u8; 32]) -> ([u8; 32], [u8; 32]) {
    (seed, ed25519_verifying_key(&seed))
}

fn sha256_leaf(leaf: &[u8; 32]) -> [u8; 32] {
    sha2::Sha256::digest([[0x00u8].as_slice(), leaf].concat()).into()
}

fn make_log_sth(root: &[u8; 32], log_sk: &[u8; 32]) -> SignedTreeHead {
    let timestamp = 1700000000u64;
    let tree_size = 1u64;
    let mut data = Vec::new();
    data.extend_from_slice(&timestamp.to_be_bytes());
    data.extend_from_slice(&tree_size.to_be_bytes());
    data.extend_from_slice(root);
    let sk = ed25519_dalek::SigningKey::from_bytes(log_sk);
    let sig = sk.sign(&data);
    let log_pubkey = ed25519_verifying_key(log_sk).to_vec();
    SignedTreeHead::new(timestamp, tree_size, *root, sig.to_bytes().to_vec(), log_pubkey)
}

fn anchored_statement(payload: &AxiomPayload, sk: &[u8; 32], log_sk: &[u8; 32]) -> Statement {
    let payload_hash = blake3(&payload.encode());
    let ct_root = sha256_leaf(&payload_hash);
    let sth = make_log_sth(&ct_root, log_sk);
    let anchor = TemporalAnchor {
        inclusion_proof: LogInclusionProof { leaf_index: 0, siblings: Vec::new() },
        signed_tree_head: sth,
    };
    Statement::sign_ed25519_and_anchor(payload, sk, &anchor).unwrap()
}

#[test]
fn test_verify_basic_statement() {
    let payload = AxiomPayload::new([0xab; 32], Predicate::Attests);
    let (sk, vk) = keypair([0x42u8; 32]);
    let stmt = Statement::sign_ed25519(&payload, &sk).unwrap();
    let store = SimpleTrustStore::new(vk, [0u8; 32]);
    let result = verify_statement(stmt.to_bytes(), &store);
    assert!(result.is_ok());
}

#[test]
fn test_verify_wrong_key() {
    let payload = AxiomPayload::new([0xab; 32], Predicate::Attests);
    let (sk, _) = keypair([0x42u8; 32]);
    let (_, wrong_vk) = keypair([0x99u8; 32]);
    let stmt = Statement::sign_ed25519(&payload, &sk).unwrap();
    let store = SimpleTrustStore::new(wrong_vk, [0u8; 32]);
    let result = verify_statement(stmt.to_bytes(), &store);
    assert!(result.is_err());
}

#[test]
fn test_verify_direct_ed25519() {
    let payload = AxiomPayload::new([0xab; 32], Predicate::Attests);
    let (sk, vk) = keypair([0x42u8; 32]);
    let stmt = Statement::sign_ed25519(&payload, &sk).unwrap();
    let result = verify_statement_ed25519(stmt.to_bytes(), &vk);
    assert!(result.is_ok());
}

#[test]
fn test_verify_tampered_payload() {
    let payload = AxiomPayload::new([0xab; 32], Predicate::Attests);
    let (sk, vk) = keypair([0x42u8; 32]);
    let stmt = Statement::sign_ed25519(&payload, &sk).unwrap();
    let mut bytes = stmt.to_bytes().to_vec();
    if let Some(b) = bytes.last_mut() {
        *b ^= 0x01;
    }
    let result = verify_statement_ed25519(&bytes, &vk);
    assert!(result.is_err());
}

#[test]
fn test_verify_empty_data() {
    let (_, vk) = keypair([0x42u8; 32]);
    let result = verify_statement_ed25519(b"", &vk);
    assert!(result.is_err());
}

#[test]
fn test_verify_with_ct_anchor() {
    let payload = AxiomPayload::new([0xab; 32], Predicate::Attests);
    let (sk, vk) = keypair([0x42u8; 32]);
    let (log_sk, log_vk) = keypair([0x99u8; 32]);

    let payload_hash = blake3(&payload.encode());
    let inclusion_proof = LogInclusionProof { leaf_index: 0, siblings: Vec::new() };
    let ct_root = sha256_leaf(&payload_hash);
    assert!(inclusion_proof.verify(&payload_hash, &ct_root));

    let sth = make_log_sth(&ct_root, &log_sk);
    let anchor = TemporalAnchor { inclusion_proof, signed_tree_head: sth };
    let stmt = Statement::sign_ed25519_and_anchor(&payload, &sk, &anchor).unwrap();

    let store = SimpleTrustStore::new(vk, log_vk);
    let result = verify_statement(stmt.to_bytes(), &store);
    assert!(result.is_ok(), "CT-anchored verification should pass");
}

#[test]
fn test_verify_with_ct_anchor_revoked() {
    let payload = AxiomPayload::new([0xab; 32], Predicate::Attests);
    let (sk, vk) = keypair([0x42u8; 32]);
    let (log_sk, log_vk) = keypair([0x99u8; 32]);
    let stmt = anchored_statement(&payload, &sk, &log_sk);

    let mut store = SimpleTrustStore::new(vk, log_vk);
    store.revoked = Some(true);
    let result = verify_statement(stmt.to_bytes(), &store);
    assert_eq!(result, Err(Error::Revoked));
}

#[test]
fn test_verify_revocation_unknown_yields_warning() {
    let payload = AxiomPayload::new([0xab; 32], Predicate::Attests);
    let (sk, vk) = keypair([0x42u8; 32]);
    let (log_sk, log_vk) = keypair([0x99u8; 32]);
    let stmt = anchored_statement(&payload, &sk, &log_sk);

    let mut store = SimpleTrustStore::new(vk, log_vk);
    store.revoked = None;
    let (_, warnings) = verify_statement_with_warnings(stmt.to_bytes(), &store).unwrap();
    assert!(warnings.warnings.contains(&Warning::RevocationStatusUnknown));
}

#[test]
fn test_verify_with_ct_anchor_bad_proof() {
    let payload = AxiomPayload::new([0xab; 32], Predicate::Attests);
    let (sk, vk) = keypair([0x42u8; 32]);
    let (log_sk, log_vk) = keypair([0x99u8; 32]);

    let wrong_root = [0xbb; 32];
    let inclusion_proof = LogInclusionProof { leaf_index: 0, siblings: Vec::new() };
    let sth = make_log_sth(&wrong_root, &log_sk);
    let anchor = TemporalAnchor { inclusion_proof, signed_tree_head: sth };
    let stmt = Statement::sign_ed25519_and_anchor(&payload, &sk, &anchor).unwrap();

    let store = SimpleTrustStore::new(vk, log_vk);
    let result = verify_statement(stmt.to_bytes(), &store);
    assert_eq!(result, Err(Error::InvalidLogProof("inclusion proof does not match STH".into())));
}

#[test]
fn test_verify_non_canonical() {
    let payload = AxiomPayload::new([0xab; 32], Predicate::Attests);
    let (sk, vk) = keypair([0x42u8; 32]);
    let stmt = Statement::sign_ed25519(&payload, &sk).unwrap();
    let result = verify_statement_ed25519(stmt.to_bytes(), &vk);
    assert!(result.is_ok());
}

/// A parent statement with timestamp `parent_ts`, stored under its hash, and
/// a `DerivedFrom` child pointing at it.
fn parent_and_child(parent_ts: u64, child_ts: u64, nonce: Option<[u8; 32]>) -> (SimpleTrustStore, Statement) {
    let (sk, vk) = keypair([0x42u8; 32]);
    let mut store = SimpleTrustStore::new(vk, [0u8; 32]);

    let mut p1 = AxiomPayload::new([0x01; 32], Predicate::Attests);
    p1.timestamp = Some(parent_ts);
    let stmt1 = Statement::sign_ed25519(&p1, &sk).unwrap();
    let h1 = blake3(stmt1.to_bytes());
    store.chain.insert(h1, stmt1.to_bytes().to_vec());

    let mut p2 = AxiomPayload::new([0x01; 32], Predicate::DerivedFrom);
    p2.timestamp = Some(child_ts);
    p2.nonce = nonce;
    p2.object = Some([0x01; 32]);
    p2.lineage = Some(h1);
    let stmt2 = Statement::sign_ed25519(&p2, &sk).unwrap();
    (store, stmt2)
}

#[test]
fn test_verify_timestamp_monotonicity_forward_ok() {
    let (store, stmt2) = parent_and_child(100, 200, None);
    assert!(verify_statement(stmt2.to_bytes(), &store).is_ok());
}

#[test]
fn test_verify_timestamp_backward_fails() {
    let (store, stmt2) = parent_and_child(200, 100, None);
    let result = verify_statement(stmt2.to_bytes(), &store);
    assert_eq!(result, Err(Error::TimestampMonotonicityViolation));
}

#[test]
fn test_verify_equal_timestamp_requires_nonce() {
    let (store, stmt2) = parent_and_child(100, 100, None);
    let result = verify_statement(stmt2.to_bytes(), &store);
    assert_eq!(result, Err(Error::TimestampMonotonicityViolation));
}

#[test]
fn test_verify_equal_timestamp_with_nonce_ok() {
    let (store, stmt2) = parent_and_child(100, 100, Some([0xde; 32]));
    assert!(verify_statement(stmt2.to_bytes(), &store).is_ok());
}

#[test]
fn test_verify_revokes_same_issuer_ok() {
    let (sk, vk) = keypair([0x42u8; 32]);
    let mut store = SimpleTrustStore::new(vk, [0u8; 32]);

    let p_target = AxiomPayload::new([0xab; 32], Predicate::Attests);
    let target_stmt = Statement::sign_ed25519(&p_target, &sk).unwrap();
    let target_hash = blake3(target_stmt.to_bytes());
    store.chain.insert(target_hash, target_stmt.to_bytes().to_vec());

    let mut p_revoke = AxiomPayload::new(target_hash, Predicate::Revokes);
    p_revoke.object = Some(target_hash);
    let revoke_stmt = Statement::sign_ed25519(&p_revoke, &sk).unwrap();
    assert!(verify_statement(revoke_stmt.to_bytes(), &store).is_ok());
}

#[test]
fn test_verify_revokes_different_issuer_fails() {
    let (issuer_sk, issuer_vk) = keypair([0x42u8; 32]);
    let (other_sk, _) = keypair([0x99u8; 32]);
    let mut store = SimpleTrustStore::new(issuer_vk, [0u8; 32]);

    let p_target = AxiomPayload::new([0xab; 32], Predicate::Attests);
    let target_stmt = Statement::sign_ed25519(&p_target, &other_sk).unwrap();
    let target_hash = blake3(target_stmt.to_bytes());
    store.chain.insert(target_hash, target_stmt.to_bytes().to_vec());

    let mut p_revoke = AxiomPayload::new(target_hash, Predicate::Revokes);
    p_revoke.object = Some(target_hash);
    let revoke_stmt = Statement::sign_ed25519(&p_revoke, &issuer_sk).unwrap();
    let result = verify_statement(revoke_stmt.to_bytes(), &store);
    assert_eq!(result, Err(Error::RevokeIssuerMismatch));
}

#[test]
fn test_verify_lineage_hash_mismatch_fails() {
    let (sk, vk) = keypair([0x42u8; 32]);
    let mut store = SimpleTrustStore::new(vk, [0u8; 32]);

    let mut p1 = AxiomPayload::new([0x01; 32], Predicate::Attests);
    p1.timestamp = Some(100);
    let stmt1 = Statement::sign_ed25519(&p1, &sk).unwrap();
    let h1 = blake3(stmt1.to_bytes());

    let mut p2 = AxiomPayload::new([0x01; 32], Predicate::DerivedFrom);
    p2.timestamp = Some(200);
    p2.object = Some([0x01; 32]);
    p2.lineage = Some(h1);
    let stmt2 = Statement::sign_ed25519(&p2, &sk).unwrap();

    let wrong_hash = [0xff; 32];
    store.chain.insert(wrong_hash, stmt1.to_bytes().to_vec());

    let result = verify_statement(stmt2.to_bytes(), &store);
    assert_eq!(result, Err(Error::BrokenLineage("previous statement not found".into())));
}

#[test]
fn test_verify_lineage_content_tamper_detected() {
    let (sk, vk) = keypair([0x42u8; 32]);
    let mut store = SimpleTrustStore::new(vk, [0u8; 32]);

    let mut p1 = AxiomPayload::new([0x01; 32], Predicate::Attests);
    p1.timestamp = Some(100);
    let stmt1 = Statement::sign_ed25519(&p1, &sk).unwrap();
    let h1 = blake3(stmt1.to_bytes());
    store.chain.insert(h1, stmt1.to_bytes().to_vec());

    let mut tampered = stmt1.to_bytes().to_vec();
    if let Some(b) = tampered.last_mut() {
        *b ^= 0x01;
    }
    store.chain.insert(h1, tampered);

    let mut p2 = AxiomPayload::new([0x01; 32], Predicate::DerivedFrom);
    p2.timestamp = Some(200);
    p2.object = Some([0x01; 32]);
    p2.lineage = Some(h1);
    let stmt2 = Statement::sign_ed25519(&p2, &sk).unwrap();

    let result = verify_statement(stmt2.to_bytes(), &store);
    assert_eq!(result, Err(Error::BrokenLineage("lineage hash does not match fetched statement".into())));
}

/// A store that knows only the anchor key, and finds rotated keys through
/// `Supersedes` statements.
struct RotationStore {
    anchor_key: [u8; 32],
    chain: BTreeMap<[u8; 32], Vec<u8>>,
}

impl TrustStore for RotationStore {
    fn resolve_key(&self, kid: &[u8]) -> Option<[u8; 32]> {
        if kid == self.anchor_key.as_slice() || kid == blake3(&self.anchor_key).as_slice() {
            Some(self.anchor_key)
        } else {
            None
        }
    }
    fn resolve_composite_key(&self, _kid: &[u8]) -> Option<CompositePublicKey> {
        None
    }
    fn fetch_statement(&self, hash: &[u8; 32]) -> Option<Vec<u8>> {
        self.chain.get(hash).cloned()
    }
    fn is_revoked_in_log(&self, _h: &[u8; 32], _t: u64) -> Option<bool> {
        None
    }
    fn resolve_log_pubkey(&self, _log_id: &[u8; 32], _candidate: &[u8; 32]) -> Option<[u8; 32]> {
        None
    }
    fn resolve_rotated_key(&self, kid: &[u8]) -> Option<[u8; 32]> {
        if let Some(pk) = self.resolve_key(kid) {
            return Some(pk);
        }
        let kid_hash = blake3(kid);
        for stmt_bytes in self.chain.values() {
            let stmt = Statement::from_bytes(stmt_bytes).ok()?;
            let payload = stmt.decode_payload().ok()?;
            if payload.predicate != Predicate::Supersedes {
                continue;
            }
            if payload.subject != kid_hash {
                continue;
            }
            let prev_kid: [u8; 32] = payload.object?;
            let prev_pk = self.resolve_rotated_key(&prev_kid)?;
            parse_and_verify_ed25519(stmt_bytes, &prev_pk).ok()?;
            let rotated_pk_bytes: [u8; 32] = kid.try_into().ok()?;
            return ed25519_dalek::VerifyingKey::from_bytes(&rotated_pk_bytes).ok().map(|k| k.to_bytes());
        }
        None
    }

    fn resolve_mldsa65_key(&self, _kid: &[u8]) -> Option<[u8; 1952]> {
        None
    }
}

#[test]
fn test_key_rotation_chain() {
    let (anchor_sk, anchor_vk) = keypair([0xaa; 32]);
    let anchor_kid = anchor_vk;
    let (rotated_sk, rotated_vk) = keypair([0xbb; 32]);
    let rotated_kid = rotated_vk;

    let rot_subject = blake3(&rotated_kid);
    let rot_object = blake3(&anchor_kid);
    let mut rot_payload = AxiomPayload::new(rot_subject, Predicate::Supersedes);
    rot_payload.object = Some(rot_object);
    let rot_stmt = Statement::sign_ed25519(&rot_payload, &anchor_sk).unwrap();
    let rot_hash = blake3(rot_stmt.to_bytes());

    let mut chain = BTreeMap::new();
    chain.insert(rot_hash, rot_stmt.to_bytes().to_vec());
    let store = RotationStore { anchor_key: anchor_vk, chain };

    assert_eq!(store.resolve_rotated_key(&anchor_kid), Some(anchor_vk), "anchor key should resolve directly");
    assert!(store.resolve_rotated_key(&rotated_kid).is_some(), "rotated key should resolve via chain");

    let payload = AxiomPayload::new([0xcc; 32], Predicate::Attests);
    let stmt = Statement::sign_ed25519(&payload, &rotated_sk).unwrap();
    assert!(verify_statement(stmt.to_bytes(), &store).is_ok(), "rotated key verification should succeed");

    let bad_stmt = Statement::sign_ed25519(&payload, &[0xdd; 32]).unwrap();
    assert!(verify_statement(bad_stmt.to_bytes(), &store).is_err(), "wrong key should fail");
}

fn cbordata_prefix_len(data_len: usize) -> usize {
    if data_len < 24 {
        1
    } else if data_len < 256 {
        2
    } else if data_len < 65536 {
        3
    } else {
        5
    }
}

fn encode_bstr_raw(buf: &mut Vec<u8>, data: &[u8]) {
    encode_uint_head(buf, 0x40, data.len() as u64);
    buf.extend_from_slice(data);
}

/// Replaces the signature field of an envelope.
fn replace_signature(cose: &[u8], new_sig: &[u8]) -> Vec<u8> {
    if let Ok(protected) = extract_protected(cose) {
        let protected_prefix = cbordata_prefix_len(protected.len());
        let tag_offset = if cose.len() >= 2 && cose[0] == 0xd8 && cose[1] == 0x62 { 2 } else { 0 };
        let mut off = tag_offset + 1 + protected_prefix + protected.len();
        if let Ok(map_len) = decode_map_len(cose, &mut off) {
            for _ in 0..map_len {
                let _ = skip_value(cose, &mut off);
            }
        }
        if let Ok(payload) = extract_payload(cose) {
            let payload_prefix = cbordata_prefix_len(payload.len());
            off += payload_prefix + payload.len();
        }
        let old_sig = extract_signature(cose).unwrap_or_default();
        let sig_prefix = cbordata_prefix_len(old_sig.len());
        let new_sig_prefix = cbordata_prefix_len(new_sig.len());
        let mut result = cose[..off].to_vec();
        encode_bstr_raw(&mut result, new_sig);
        if new_sig_prefix == sig_prefix {
            result.extend_from_slice(&cose[off + sig_prefix + old_sig.len()..]);
        }
        result
    } else {
        cose.to_vec()
    }
}

#[test]
fn test_threat_anchor_transplantation() {
    let (sk, vk) = keypair([0x42u8; 32]);
    let (log_sk, log_vk) = keypair([0x99u8; 32]);

    let payload_a = AxiomPayload::new([0xaa; 32], Predicate::Attests);
    let stmt_a = anchored_statement(&payload_a, &sk, &log_sk);
    let stmt_a_bytes = stmt_a.to_bytes().to_vec();

    let payload_b = AxiomPayload::new([0xbb; 32], Predicate::Authors);
    let stmt_b = Statement::sign_ed25519(&payload_b, &sk).unwrap();
    let mut stmt_b_bytes = stmt_b.to_bytes().to_vec();

    if let Ok(protected) = extract_protected(&stmt_b_bytes) {
        let protected_len = protected.len();
        let tag_offset = if stmt_b_bytes.len() >= 2 && stmt_b_bytes[0] == 0xd8 && stmt_b_bytes[1] == 0x62 { 2 } else { 0 };
        let protected_prefix_len = if protected_len < 24 { 1 } else if protected_len < 256 { 2 } else { 3 };
        let unprotected_start = tag_offset + 1 + protected_prefix_len + protected_len;
        let payload_start = {
            let mut off = unprotected_start;
            let map_len = decode_map_len(&stmt_a_bytes, &mut off).unwrap_or(0);
            for _ in 0..map_len {
                let _ = skip_value(&stmt_a_bytes, &mut off);
            }
            off
        };
        let a_unprotected = &stmt_a_bytes[unprotected_start..payload_start];
        let b_protected_len = extract_protected(&stmt_b_bytes).map(|p| p.len()).unwrap_or(0);
        let b_protected_prefix_len = if b_protected_len < 24 { 1 } else if b_protected_len < 256 { 2 } else { 3 };
        let b_tag_offset =
            if stmt_b_bytes.len() >= 2 && stmt_b_bytes[0] == 0xd8 && stmt_b_bytes[1] == 0x62 { 2 } else { 0 };
        let b_unprotected_start = b_tag_offset + 1 + b_protected_prefix_len + b_protected_len;
        let mut transplanted = Vec::new();
        transplanted.extend_from_slice(&stmt_b_bytes[..b_unprotected_start]);
        transplanted.extend_from_slice(a_unprotected);
        let b_payload_start = {
            let mut off = b_unprotected_start;
            let map_len = decode_map_len(&stmt_b_bytes, &mut off).unwrap_or(0);
            for _ in 0..map_len {
                let _ = skip_value(&stmt_b_bytes, &mut off);
            }
            off
        };
        transplanted.extend_from_slice(&stmt_b_bytes[b_payload_start..]);
        stmt_b_bytes = transplanted;
    }

    let store = SimpleTrustStore::new(vk, log_vk);
    let result = verify_statement(&stmt_b_bytes, &store);
    assert!(result.is_err(), "anchor transplantation should fail");
}

#[test]
fn test_threat_quantum_attack_ed25519_tampered() {
    let (sk, vk) = keypair([0x42u8; 32]);
    let ml_sk = [0x01u8; 32];

    let payload = AxiomPayload::new([0xab; 32], Predicate::Attests);
    let stmt = Statement::sign_composite(&payload, &sk, &ml_sk).unwrap();
    let cose_bytes = stmt.to_bytes().to_vec();

    let sig = extract_signature(&cose_bytes).unwrap();
    let ml_sig_size = 3309usize;
    if sig.len() != ml_sig_size + 64 {
        return;
    }

    let mut tampered_sig = sig.clone();
    if let Some(b) = tampered_sig.last_mut() {
        *b ^= 0x01;
    }
    let tampered_cose = replace_signature(&cose_bytes, &tampered_sig);
    let comp_pk = CompositePublicKey { ed25519: vk, mldsa65: mldsa65_verifying_key(&ml_sk) };
    let result = parse_and_verify_composite(&tampered_cose, &comp_pk, VerificationMode::Hybrid);
    assert!(result.is_err(), "tampered Ed25519 part should fail");
}

#[test]
fn test_threat_quantum_attack_mldsa_tampered() {
    let (sk, vk) = keypair([0x42u8; 32]);
    let ml_sk = [0x01u8; 32];

    let payload = AxiomPayload::new([0xab; 32], Predicate::Attests);
    let stmt = Statement::sign_composite(&payload, &sk, &ml_sk).unwrap();
    let cose_bytes = stmt.to_bytes().to_vec();

    let mut sig = extract_signature(&cose_bytes).unwrap();
    let ml_sig_size = 3309usize;
    if sig.len() != ml_sig_size + 64 {
        return;
    }
    if !sig.is_empty() {
        sig[0] ^= 0x01;
    }
    let tampered_cose = replace_signature(&cose_bytes, &sig);
    let comp_pk = CompositePublicKey { ed25519: vk, mldsa65: mldsa65_verifying_key(&ml_sk) };
    let result = parse_and_verify_composite(&tampered_cose, &comp_pk, VerificationMode::Hybrid);
    assert!(result.is_err(), "tampered ML-DSA-65 part should fail");
}

#[test]
fn test_threat_sth_replay() {
    let (sk, vk) = keypair([0x42u8; 32]);
    let (log_sk, log_vk) = keypair([0x99u8; 32]);

    let payload_a = AxiomPayload::new([0xaa; 32], Predicate::Attests);
    let payload_a_hash = blake3(&payload_a.encode());
    let ct_root_a = sha256_leaf(&payload_a_hash);
    let sth_a = make_log_sth(&ct_root_a, &log_sk);
    let anchor_a = TemporalAnchor {
        inclusion_proof: LogInclusionProof { leaf_index: 0, siblings: Vec::new() },
        signed_tree_head: sth_a,
    };

    let payload_b = AxiomPayload::new([0xbb; 32], Predicate::DerivedFrom);
    let stmt_b = Statement::sign_ed25519_and_anchor(&payload_b, &sk, &anchor_a).unwrap();

    let store = SimpleTrustStore::new(vk, log_vk);
    let result = verify_statement(stmt_b.to_bytes(), &store);
    assert!(result.is_err(), "STH replay should fail (inclusion proof mismatch)");
}

#[test]
fn test_revocation_timestamp_ordering() {
    let (sk, vk) = keypair([0x42u8; 32]);
    let (_, log_vk) = keypair([0x99u8; 32]);
    let mut store = SimpleTrustStore::new(vk, log_vk);

    let mut target_payload = AxiomPayload::new([0x01; 32], Predicate::Authors);
    target_payload.timestamp = Some(1000);
    let target_stmt = Statement::sign_ed25519(&target_payload, &sk).unwrap();
    let target_stmt_bytes = target_stmt.to_bytes().to_vec();
    let obj_hash: [u8; 32] = blake3(&target_stmt_bytes);
    store.chain.insert(obj_hash, target_stmt_bytes);

    let mut revoke_payload = AxiomPayload::new([0x01; 32], Predicate::Revokes);
    revoke_payload.object = Some(obj_hash);
    revoke_payload.timestamp = Some(2000);
    let revoke_stmt = Statement::sign_ed25519(&revoke_payload, &sk).unwrap();
    assert!(verify_statement(revoke_stmt.to_bytes(), &store).is_ok(), "revocation with later timestamp should succeed");

    let mut early_payload = AxiomPayload::new([0x01; 32], Predicate::Revokes);
    early_payload.object = Some(obj_hash);
    early_payload.timestamp = Some(500);
    let early_stmt = Statement::sign_ed25519(&early_payload, &sk).unwrap();
    assert_eq!(verify_statement(early_stmt.to_bytes(), &store), Err(Error::TimestampMonotonicityViolation));

    let mut same_payload = AxiomPayload::new([0x01; 32], Predicate::Revokes);
    same_payload.object = Some(obj_hash);
    same_payload.timestamp = Some(1000);
    let same_stmt = Statement::sign_ed25519(&same_payload, &sk).unwrap();
    assert_eq!(verify_statement(same_stmt.to_bytes(), &store), Err(Error::TimestampMonotonicityViolation));
}

fn crypto_message(e: Error) -> String {
    match &e {
        Error::Crypto(_) => e.text(),
        other => panic!("expected a crypto error, got {other:?}"),
    }
}

#[test]
fn test_validate_alg_kid_ed25519_valid() {
    let (_, vk) = keypair([0x42u8; 32]);
    assert!(validate_algorithm_kid_binding(-8, &vk).is_ok());
}

#[test]
fn test_validate_alg_kid_ed25519_wrong_length() {
    let result = validate_algorithm_kid_binding(-8, &[0u8; 16]);
    assert!(result.is_err());
    let msg = crypto_message(result.unwrap_err());
    assert!(msg.contains("requires 32-byte KID"), "got: {msg}");
}

#[test]
fn test_validate_alg_kid_ed25519_invalid_key() {
    let (_, valid_bytes) = keypair([0x42; 32]);
    assert!(validate_algorithm_kid_binding(-8, &valid_bytes).is_ok());
    assert!(validate_algorithm_kid_binding(-8, &[0u8; 31]).is_err());
    assert!(validate_algorithm_kid_binding(-8, &[0u8; 33]).is_err());
}

#[test]
fn test_validate_alg_kid_composite_wrong_length() {
    let result = validate_algorithm_kid_binding(-39, &[0u8; 16]);
    assert!(result.is_err());
    let msg = crypto_message(result.unwrap_err());
    assert!(msg.contains("requires 32-byte KID"), "got: {msg}");
}

#[test]
fn test_validate_alg_kid_composite_valid() {
    let kid = blake3(b"any data");
    assert!(validate_algorithm_kid_binding(-39, &kid).is_ok());
}

#[test]
fn test_validate_alg_kid_mldsa65_wrong_length() {
    let result = validate_algorithm_kid_binding(-38, &[0u8; 32]);
    assert!(result.is_err());
    let msg = crypto_message(result.unwrap_err());
    assert!(msg.contains("requires 1952-byte KID"), "got: {msg}");
}

#[test]
fn test_validate_alg_kid_unsupported_algorithm() {
    let result = validate_algorithm_kid_binding(-1, &[0u8; 32]);
    assert!(result.is_err());
}

#[test]
fn test_verify_ed25519_rejects_mismatched_alg() {
    let payload = AxiomPayload::new([0xab; 32], Predicate::Attests);
    let (sk, vk) = keypair([0x42u8; 32]);
    let stmt = Statement::sign_ed25519(&payload, &sk).unwrap();
    assert!(verify_statement_ed25519(stmt.to_bytes(), &vk).is_ok());

    let mut bad_bytes = stmt.to_bytes().to_vec();
    if let Some(b) = bad_bytes.last_mut() {
        *b ^= 0x01;
    }
    let result = verify_statement_ed25519(&bad_bytes, &vk);
    assert!(result.is_err());
}

#[test]
fn verify_unanchored_statement_warns_missing_evidence() {
    let payload = AxiomPayload::new([0xab; 32], Predicate::Attests);
    let (sk, vk) = keypair([0x42u8; 32]);
    let stmt = Statement::sign_ed25519(&payload, &sk).unwrap();
    let store = SimpleTrustStore::new(vk, [0u8; 32]);
    let (s, warnings) = verify_statement_with_warnings(stmt.to_bytes(), &store).unwrap();
    assert_eq!(s.to_bytes(), stmt.to_bytes());
    assert_eq!(warnings.warnings, vec![Warning::TemporalEvidenceMissing]);
    assert!(!warnings.has_temporal_evidence());
}

#[test]
fn verify_lineage_step_rules() {
    // an older child fails, an equal timestamp needs a nonce
    assert_eq!(
        check_lineage_step(Some(5), Some(6), None, Predicate::DerivedFrom, [1; 32], [2; 32]),
        Err(Error::TimestampMonotonicityViolation)
    );
    assert_eq!(
        check_lineage_step(Some(5), Some(5), None, Predicate::DerivedFrom, [1; 32], [2; 32]),
        Err(Error::TimestampMonotonicityViolation)
    );
    assert!(check_lineage_step(Some(5), Some(5), Some([3; 32]), Predicate::DerivedFrom, [1; 32], [2; 32]).is_ok());
    // appends keeps its subject
    assert_eq!(
        check_lineage_step(Some(6), Some(5), Some([3; 32]), Predicate::Appends, [1; 32], [2; 32]),
        Err(Error::LineageSubjectMismatch)
    );
    assert!(check_lineage_step(Some(6), Some(5), None, Predicate::Appends, [1; 32], [1; 32]).is_ok());
}

#[test]
fn verify_object_required_for_linking_predicates() {
    let (sk, vk) = keypair([0x42u8; 32]);
    let payload = AxiomPayload::new([0x01; 32], Predicate::DerivedFrom);
    let stmt = Statement::sign_ed25519(&payload, &sk).unwrap();
    let store = SimpleTrustStore::new(vk, [0u8; 32]);
    assert!(matches!(verify_statement(stmt.to_bytes(), &store), Err(Error::Payload(_))));
}

/// A store that knows one key and finds others through the library's
/// rotation walker.
struct WalkerStore {
    anchor_key: [u8; 32],
    chain: BTreeMap<[u8; 32], Vec<u8>>,
}

impl TrustStore for WalkerStore {
    fn resolve_key(&self, kid: &[u8]) -> Option<[u8; 32]> {
        if kid == self.anchor_key.as_slice() {
            Some(self.anchor_key)
        } else {
            None
        }
    }
    fn resolve_composite_key(&self, _kid: &[u8]) -> Option<CompositePublicKey> {
        None
    }
    fn fetch_statement(&self, hash: &[u8; 32]) -> Option<Vec<u8>> {
        self.chain.get(hash).cloned()
    }
    fn is_revoked_in_log(&self, _h: &[u8; 32], _t: u64) -> Option<bool> {
        None
    }
    fn resolve_rotated_key(&self, kid: &[u8]) -> Option<[u8; 32]> {
        resolve_rotated_key_default(self, kid)
    }

    fn resolve_mldsa65_key(&self, _kid: &[u8]) -> Option<[u8; 1952]> {
        None
    }

    fn resolve_log_pubkey(&self, _log_id: &[u8; 32], _candidate: &[u8; 32]) -> Option<[u8; 32]> {
        None
    }
}

#[test]
fn verify_default_rotation_walker_reaches_the_anchor() {
    let (anchor_sk, anchor_vk) = keypair([0xa1; 32]);
    let (_, rotated_vk) = keypair([0xb2; 32]);
    let (_, stranger_vk) = keypair([0xc3; 32]);
    let mut rot = AxiomPayload::new(blake3(&rotated_vk), Predicate::Supersedes);
    rot.object = Some(anchor_vk);
    let rot_stmt = Statement::sign_ed25519(&rot, &anchor_sk).unwrap();
    let mut chain = BTreeMap::new();
    chain.insert(blake3(&rotated_vk), rot_stmt.to_bytes().to_vec());
    let store = WalkerStore { anchor_key: anchor_vk, chain };

    assert_eq!(resolve_rotated_key_default(&store, &anchor_vk), Some(anchor_vk));
    assert_eq!(resolve_rotated_key_default(&store, &rotated_vk), Some(anchor_vk));
    assert_eq!(resolve_rotated_key_default(&store, &stranger_vk), None);
    assert_eq!(resolve_rotated_key_default(&store, &rotated_vk[..31]), None);

    // a rotation statement signed by someone else is not followed
    let (other_sk, _) = keypair([0xd4; 32]);
    let forged = Statement::sign_ed25519(&rot, &other_sk).unwrap();
    let mut chain = BTreeMap::new();
    chain.insert(blake3(&rotated_vk), forged.to_bytes().to_vec());
    let store = WalkerStore { anchor_key: anchor_vk, chain };
    assert_eq!(resolve_rotated_key_default(&store, &rotated_vk), None);
}

#[test]
fn verify_anchor_hash_commitment_is_checked() {
    let (sk, vk) = keypair([0x42u8; 32]);
    let (log_sk, log_vk) = keypair([0x99u8; 32]);
    let store = SimpleTrustStore::new(vk, log_vk);

    // a commitment to a header other than the one carried is refused
    let mut wrong = AxiomPayload::new([0xab; 32], Predicate::Attests);
    wrong.anchor_hash = Some([0x11; 32]);
    let stmt = anchored_statement(&wrong, &sk, &log_sk);
    assert_eq!(verify_statement(stmt.to_bytes(), &store), Err(Error::AnchorHashMismatch));

    // a commitment to a header without any anchor is refused too
    let plain = Statement::sign_ed25519(&wrong, &sk).unwrap();
    assert_eq!(verify_statement(plain.to_bytes(), &store), Err(Error::AnchorHashMismatch));

    // without a commitment, the same anchor passes
    let free = AxiomPayload::new([0xab; 32], Predicate::Attests);
    let stmt = anchored_statement(&free, &sk, &log_sk);
    let (_, warnings) = verify_statement_with_warnings(stmt.to_bytes(), &store).unwrap();
    assert!(warnings.warnings.is_empty());
}

fn replies_with_key(key: Option<[u8; 32]>) -> StoreReplies {
    StoreReplies {
        ed25519_key: key,
        composite_key: None,
        mldsa65_key: None,
        lineage: Vec::new(),
        target: None,
        log_key: None,
        revoked: None,
    }
}

#[test]
fn verify_with_replies_follows_the_given_answers() {
    let payload = AxiomPayload::new([0xab; 32], Predicate::Attests);
    let (sk, vk) = keypair([0x42u8; 32]);
    let stmt = Statement::sign_ed25519(&payload, &sk).unwrap();
    let (s, warnings) = verify_statement_with_replies(stmt.to_bytes(), replies_with_key(Some(vk))).unwrap();
    assert_eq!(s.to_bytes(), stmt.to_bytes());
    assert_eq!(warnings.warnings, vec![Warning::TemporalEvidenceMissing]);

    let unknown = verify_statement_with_replies(stmt.to_bytes(), replies_with_key(None));
    assert!(matches!(unknown, Err(Error::Crypto(_))));
    let (_, other) = keypair([0x99u8; 32]);
    assert!(verify_statement_with_replies(stmt.to_bytes(), replies_with_key(Some(other))).is_err());
}

#[test]
fn verify_with_replies_walks_lineage_in_order() {
    let (sk, vk) = keypair([0x42u8; 32]);
    let mut p1 = AxiomPayload::new([0x01; 32], Predicate::Attests);
    p1.timestamp = Some(100);
    let stmt1 = Statement::sign_ed25519(&p1, &sk).unwrap();
    let mut p2 = AxiomPayload::new([0x01; 32], Predicate::DerivedFrom);
    p2.timestamp = Some(200);
    p2.object = Some([0x01; 32]);
    p2.lineage = Some(blake3(stmt1.to_bytes()));
    let stmt2 = Statement::sign_ed25519(&p2, &sk).unwrap();

    let mut replies = replies_with_key(Some(vk));
    replies.lineage = vec![Some(stmt1.to_bytes().to_vec())];
    assert!(verify_statement_with_replies(stmt2.to_bytes(), replies).is_ok());

    // No reply for the parent: the chain is broken.
    let missing = verify_statement_with_replies(stmt2.to_bytes(), replies_with_key(Some(vk)));
    assert!(matches!(missing, Err(Error::BrokenLineage(_))));

    // A reply that is not the parent statement.
    let mut wrong = replies_with_key(Some(vk));
    wrong.lineage = vec![Some(stmt2.to_bytes().to_vec())];
    assert!(matches!(verify_statement_with_replies(stmt2.to_bytes(), wrong), Err(Error::BrokenLineage(_))));
}

#[test]
fn verify_with_replies_applies_log_revocation_answer() {
    let payload = AxiomPayload::new([0xab; 32], Predicate::Attests);
    let (sk, vk) = keypair([0x42u8; 32]);
    let log_sk = [0x07u8; 32];
    let log_vk = ed25519_verifying_key(&log_sk);
    let stmt = anchored_statement(&payload, &sk, &log_sk);

    let mut ok = replies_with_key(Some(vk));
    ok.log_key = Some(log_vk);
    ok.revoked = Some(false);
    let (_, warnings) = verify_statement_with_replies(stmt.to_bytes(), ok).unwrap();
    assert!(warnings.warnings.is_empty());

    let mut unknown = replies_with_key(Some(vk));
    unknown.log_key = Some(log_vk);
    let (_, warnings) = verify_statement_with_replies(stmt.to_bytes(), unknown).unwrap();
    assert_eq!(warnings.warnings, vec![Warning::RevocationStatusUnknown]);

    let mut revoked = replies_with_key(Some(vk));
    revoked.log_key = Some(log_vk);
    revoked.revoked = Some(true);
    assert_eq!(verify_statement_with_replies(stmt.to_bytes(), revoked), Err(Error::Revoked));

    let no_log = replies_with_key(Some(vk));
    assert!(verify_statement_with_replies(stmt.to_bytes(), no_log).is_err());
}

#[test]
fn verify_rotation_with_replies_follows_one_reply_per_step() {
    let (anchor_sk, anchor_vk) = keypair([0xa1; 32]);
    let (_, rotated_vk) = keypair([0xb2; 32]);
    let mut rot = AxiomPayload::new(blake3(&rotated_vk), Predicate::Supersedes);
    rot.object = Some(anchor_vk);
    let rot_stmt = Statement::sign_ed25519(&rot, &anchor_sk).unwrap();

    // registered directly
    let direct = vec![RotationReply { key: Some(anchor_vk), fetched: None, prev_key: None }];
    assert_eq!(resolve_rotated_key_with_replies(&anchor_vk, direct), Some(anchor_vk));

    // through the rotation statement, then the key of the superseded kid
    let chain = vec![
        RotationReply { key: None, fetched: Some(rot_stmt.to_bytes().to_vec()), prev_key: Some(anchor_vk) },
        RotationReply { key: Some(anchor_vk), fetched: None, prev_key: None },
    ];
    assert_eq!(resolve_rotated_key_with_replies(&rotated_vk, chain), Some(anchor_vk));

    // the statement does not verify under the superseded key
    let (_, stranger_vk) = keypair([0xc3; 32]);
    let forged = vec![
        RotationReply { key: None, fetched: Some(rot_stmt.to_bytes().to_vec()), prev_key: Some(stranger_vk) },
        RotationReply { key: Some(anchor_vk), fetched: None, prev_key: None },
    ];
    assert_eq!(resolve_rotated_key_with_replies(&rotated_vk, forged), None);

    // replies run out, and a short kid is never looked up
    assert_eq!(resolve_rotated_key_with_replies(&rotated_vk, Vec::new()), None);
    let direct = vec![RotationReply { key: Some(anchor_vk), fetched: None, prev_key: None }];
    assert_eq!(resolve_rotated_key_with_replies(&anchor_vk[..31], direct), None);
}

#[test]
fn verify_messages_name_the_offending_values() {
    assert_eq!(
        validate_algorithm_kid_binding(-8, &[0u8; 16]),
        Err(Error::Crypto("alg=-8 (Ed25519) requires 32-byte KID, got 16 bytes".into()))
    );
    assert_eq!(
        validate_algorithm_kid_binding(-39, &[0u8; 31]),
        Err(Error::Crypto("alg=-39 (composite) requires 32-byte KID (BLAKE3 of composite key), got 31 bytes".into()))
    );
    assert_eq!(
        validate_algorithm_kid_binding(-38, &[0u8; 32]),
        Err(Error::Crypto("alg=-38 (ML-DSA-65) requires 1952-byte KID, got 32 bytes".into()))
    );
    assert_eq!(validate_algorithm_kid_binding(-1, &[0u8; 32]), Err(Error::Crypto("unsupported algorithm ID: -1".into())));
    assert_eq!(
        validate_algorithm_kid_binding(i64::MIN, &[0u8; 32]),
        Err(Error::Crypto("unsupported algorithm ID: -9223372036854775808".into()))
    );
    assert_eq!(validate_algorithm_kid_binding(7, &[]), Err(Error::Crypto("unsupported algorithm ID: 7".into())));

    // a linking predicate without an object names the predicate
    let (sk, vk) = keypair([0x42u8; 32]);
    let payload = AxiomPayload::new([0xab; 32], Predicate::DerivedFrom);
    let stmt = Statement::sign_ed25519(&payload, &sk).unwrap();
    let store = SimpleTrustStore::new(vk, [0u8; 32]);
    assert_eq!(
        verify_statement(stmt.to_bytes(), &store),
        Err(Error::Payload("DERIVED_FROM predicate requires an object field".into()))
    );
}

#[test]
fn anchor_errors_name_the_failed_check() {
    let payload = AxiomPayload::new([0xab; 32], Predicate::Attests);
    let (sk, vk) = keypair([0x42u8; 32]);
    let (log_sk, _log_vk) = keypair([0x99u8; 32]);
    let sth = make_log_sth(&[0xbb; 32], &log_sk);
    let anchor = TemporalAnchor {
        inclusion_proof: LogInclusionProof { leaf_index: 0, siblings: Vec::new() },
        signed_tree_head: sth,
    };
    let stmt = Statement::sign_ed25519_and_anchor(&payload, &sk, &anchor).unwrap();
    // the store trusts another log key
    let store = SimpleTrustStore::new(vk, [0x01; 32]);
    assert_eq!(
        verify_statement(stmt.to_bytes(), &store),
        Err(Error::InvalidLogProof("STH from untrusted log".into()))
    );
}
