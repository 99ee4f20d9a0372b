//! The fixed trust store: pinned keys, cached chain statements, the
//! trusted log key and revocation answers as of a checkpoint.
use ed25519_dalek::Signer;
use sha2::Digest;
use verax::cbor::AxiomPayload;
use verax::cose::{composite_pubkey, ed25519_verifying_key, mldsa65_verifying_key, CompositePublicKey};
use verax::ct::{LogInclusionProof, SignedTreeHead, TemporalAnchor};
use verax::error::Error;
use verax::hash::blake3;
use verax::predicate::Predicate;
use verax::statement::Statement;
use verax::store::SnapshotTrustStore;
use verax::verify::{verify_statement, verify_statement_with_warnings, TrustStore, Warning};

fn anchored(payload: &AxiomPayload, sk: &[u8; 32], log_sk: &[u8; 32], sth_ts: u64) -> Statement {
    let leaf = blake3(&payload.encode());
    let root: [u8; 32] = sha2::Sha256::digest([[0x00u8].as_slice(), &leaf].concat()).into();
    let mut data = Vec::new();
    data.extend_from_slice(&sth_ts.to_be_bytes());
    data.extend_from_slice(&1u64.to_be_bytes());
    data.extend_from_slice(&root);
    let sig = ed25519_dalek::SigningKey::from_bytes(log_sk).sign(&data);
    let sth = SignedTreeHead::new(sth_ts, 1, root, sig.to_bytes().to_vec(), ed25519_verifying_key(log_sk).to_vec());
    let anchor = TemporalAnchor { inclusion_proof: LogInclusionProof { leaf_index: 0, siblings: Vec::new() }, signed_tree_head: sth };
    Statement::sign_ed25519_and_anchor(payload, sk, &anchor).unwrap()
}

#[test]
fn store_pins_only_valid_keys() {
    let vk = ed25519_verifying_key(&[0x42u8; 32]);
    let store = SnapshotTrustStore::new(&vk, &[], None);
    assert_eq!(store.resolve_key(b"any kid"), Some(vk));
    assert_eq!(store.resolve_rotated_key(b"other"), Some(vk));
    assert!(store.resolve_composite_key(b"kid").is_none());
    assert!(SnapshotTrustStore::new(&vk[..31], &[], None).resolve_key(b"k").is_none());
    // a y-coordinate that is not on the curve
    let mut off_curve = [0u8; 32];
    off_curve[0] = 2;
    assert!(SnapshotTrustStore::new(&off_curve, &[], None).resolve_key(b"k").is_none());
}

#[test]
fn store_fetches_statements_by_hash() {
    let mut store = SnapshotTrustStore::new(&[], &[], None);
    store.add_statement(b"first");
    store.add_statement(b"second");
    assert_eq!(store.fetch_statement(&blake3(b"first")), Some(b"first".to_vec()));
    assert_eq!(store.fetch_statement(&blake3(b"second")), Some(b"second".to_vec()));
    assert_eq!(store.fetch_statement(&blake3(b"third")), None);
}

#[test]
fn store_answers_revocation_up_to_checkpoint() {
    let mut store = SnapshotTrustStore::new(&[], &[], Some(1000));
    let a = [0xaau8; 32];
    let b = [0xbbu8; 32];
    store.mark_revoked(a);
    store.mark_not_revoked(b);
    assert_eq!(store.is_revoked_in_log(&a, 1000), Some(true));
    assert_eq!(store.is_revoked_in_log(&b, 999), Some(false));
    assert_eq!(store.is_revoked_in_log(&[0xccu8; 32], 10), None);
    assert_eq!(store.is_revoked_in_log(&a, 1001), None);
    let no_checkpoint = SnapshotTrustStore::new(&[], &[], None);
    assert_eq!(no_checkpoint.is_revoked_in_log(&a, 0), None);
}

#[test]
fn store_trusts_only_its_log_key() {
    let log_vk = ed25519_verifying_key(&[0x99u8; 32]);
    let store = SnapshotTrustStore::new(&[], &log_vk, None);
    assert_eq!(store.resolve_log_pubkey(&[0u8; 32], &log_vk), Some(log_vk));
    assert_eq!(store.resolve_log_pubkey(&[0u8; 32], &[1u8; 32]), None);
    let untrusting = SnapshotTrustStore::new(&[], &log_vk[..16], None);
    assert_eq!(untrusting.resolve_log_pubkey(&[0u8; 32], &log_vk), None);
}

#[test]
fn store_composite_key_is_returned() {
    let ed_vk = ed25519_verifying_key(&[0x21u8; 32]);
    let ml_vk = mldsa65_verifying_key(&[0x22u8; 32]);
    let mut store = SnapshotTrustStore::new(&[], &[], None);
    store.set_composite_key(composite_pubkey(&ed_vk, &ml_vk));
    let k: CompositePublicKey = store.resolve_composite_key(b"kid").unwrap();
    assert_eq!(k.ed25519, ed_vk);
    assert_eq!(k.mldsa65.to_vec(), ml_vk.to_vec());
    assert!(store.resolve_mldsa65_key(b"kid").is_none());
    store.set_mldsa65_key(ml_vk);
    assert_eq!(store.resolve_mldsa65_key(b"kid").unwrap().to_vec(), ml_vk.to_vec());
}

#[test]
fn store_verifies_a_chain_and_an_anchor() {
    let sk = [0x42u8; 32];
    let vk = ed25519_verifying_key(&sk);
    let log_sk = [0x99u8; 32];
    let log_vk = ed25519_verifying_key(&log_sk);

    let mut p1 = AxiomPayload::new([0x01; 32], Predicate::Attests);
    p1.timestamp = Some(100);
    let s1 = Statement::sign_ed25519(&p1, &sk).unwrap();
    let mut p2 = AxiomPayload::new([0x01; 32], Predicate::DerivedFrom);
    p2.timestamp = Some(200);
    p2.object = Some([0x01; 32]);
    p2.lineage = Some(blake3(s1.to_bytes()));
    let s2 = anchored(&p2, &sk, &log_sk, 300);

    // without the parent the chain is broken
    let mut store = SnapshotTrustStore::new(&vk, &log_vk, Some(1000));
    assert!(matches!(verify_statement(s2.to_bytes(), &store), Err(Error::BrokenLineage(_))));

    // with it, and no revocation answer: a warning only
    store.add_statement(s1.to_bytes());
    let (_, w) = verify_statement_with_warnings(s2.to_bytes(), &store).unwrap();
    assert_eq!(w.warnings, vec![Warning::RevocationStatusUnknown]);
    assert_eq!(w.warnings[0].code_name(), "revocation_status_unknown");

    // reported not revoked: clean; reported revoked: refused
    store.mark_not_revoked(blake3(s2.to_bytes()));
    let (_, w) = verify_statement_with_warnings(s2.to_bytes(), &store).unwrap();
    assert!(w.warnings.is_empty());
    let mut revoking = SnapshotTrustStore::new(&vk, &log_vk, Some(1000));
    revoking.add_statement(s1.to_bytes());
    revoking.mark_revoked(blake3(s2.to_bytes()));
    assert_eq!(verify_statement(s2.to_bytes(), &revoking), Err(Error::Revoked));
}

#[test]
fn store_warning_code_names() {
    assert_eq!(Warning::TemporalEvidenceMissing.code_name(), "temporal_evidence_missing");
    assert_eq!(Warning::RevocationStatusUnknown.code_name(), "revocation_status_unknown");
    let stale = Warning::StaleSth { sth_timestamp: 10, statement_timestamp: 1, delta: 9 };
    assert_eq!(stale.code_name(), "stale_sth");
}

#[test]
fn store_lineage_deeper_than_the_limit_is_refused() {
    let sk = [0x42u8; 32];
    let vk = ed25519_verifying_key(&sk);
    let mut store = SnapshotTrustStore::new(&vk, &[], None);
    let mut prev: Option<Statement> = None;
    let mut chain: Vec<Statement> = Vec::new();
    for i in 0..1026u64 {
        let mut p = AxiomPayload::new([0x01; 32], Predicate::DerivedFrom);
        p.object = Some([0x02; 32]);
        p.timestamp = Some(1000 + i);
        if let Some(s) = &prev {
            p.lineage = Some(blake3(s.to_bytes()));
        }
        let s = Statement::sign_ed25519(&p, &sk).unwrap();
        store.add_statement(s.to_bytes());
        prev = Some(s.clone());
        chain.push(s);
    }
    // 1024 ancestors: within the limit
    assert!(verify_statement(chain[1024].to_bytes(), &store).is_ok());
    // 1025 ancestors: over it
    assert_eq!(verify_statement(chain[1025].to_bytes(), &store), Err(Error::LineageDepthExceeded));
}
