//! Signed statements: signing, parsing and payload accessors.
use verax::cbor::AxiomPayload;
use verax::cose::{ed25519_verifying_key, extract_unprotected, parse_and_verify_ed25519};
use verax::ct::{LogInclusionProof, SignedTreeHead, TemporalAnchor};
use verax::hash::blake3;
use verax::predicate::Predicate;
use verax::statement::Statement;

fn counting_seed() -> [u8; 32] {
    let mut ml_seed = [0u8; 32];
    for (i, b) in ml_seed.iter_mut().enumerate() {
        *b = i as u8;
    }
    ml_seed
}

#[test]
fn test_statement_sign_and_decode_ed25519() {
    let payload = AxiomPayload::new([0xab; 32], Predicate::Attests);
    let sk = [0x42u8; 32];

    let stmt = Statement::sign_ed25519(&payload, &sk).unwrap();
    let decoded = stmt.decode_payload().unwrap();
    assert_eq!(decoded.subject, payload.subject);
    assert_eq!(decoded.predicate, payload.predicate);
}

#[test]
fn test_statement_from_bytes() {
    let payload = AxiomPayload::new([0x01; 32], Predicate::Authors);
    let sk = [0x42u8; 32];
    let stmt = Statement::sign_ed25519(&payload, &sk).unwrap();

    let bytes = stmt.to_bytes().to_vec();
    let parsed = Statement::from_bytes(&bytes).unwrap();
    assert_eq!(parsed.decode_payload().unwrap(), payload);
}

#[test]
fn test_statement_accessors() {
    let mut payload = AxiomPayload::new([0x01; 32], Predicate::DerivedFrom);
    payload.object = Some([0x02; 32]);
    payload.timestamp = Some(1700000000);

    let sk = [0x42u8; 32];
    let stmt = Statement::sign_ed25519(&payload, &sk).unwrap();

    assert_eq!(stmt.subject().unwrap(), [0x01; 32]);
    assert_eq!(stmt.predicate().unwrap(), Predicate::DerivedFrom);
    assert_eq!(stmt.object().unwrap(), Some([0x02; 32]));
    assert_eq!(stmt.timestamp().unwrap(), Some(1700000000));
}

#[test]
fn test_statement_hash() {
    let payload = AxiomPayload::new([0x01; 32], Predicate::Attests);
    let sk = [0x42u8; 32];
    let stmt = Statement::sign_ed25519(&payload, &sk).unwrap();
    let h = stmt.cose_hash();
    assert_eq!(h.len(), 32);
}

#[test]
fn test_cose_hash() {
    let payload = AxiomPayload::new([0x01; 32], Predicate::Attests);
    let sk = [0x42u8; 32];

    let stmt1 = Statement::sign_ed25519(&payload, &sk).unwrap();
    let stmt2 = Statement::sign_ed25519(&payload, &sk).unwrap();

    assert_eq!(stmt1.payload_hash().unwrap(), stmt2.payload_hash().unwrap());
}

#[test]
fn test_sign_ed25519_and_anchor() {
    let payload = AxiomPayload::new([0xab; 32], Predicate::Attests);
    let sk = [0x42u8; 32];
    let vk = ed25519_verifying_key(&sk);

    let proof = LogInclusionProof { leaf_index: 0, siblings: Vec::new() };
    let root = [0xcc; 32];
    let sig_bytes = [0u8; 64].to_vec();
    let sth = SignedTreeHead::new(1700000000, 1, root, sig_bytes, vk.to_vec());
    let anchor = TemporalAnchor { inclusion_proof: proof, signed_tree_head: sth };

    let stmt = Statement::sign_ed25519_and_anchor(&payload, &sk, &anchor).unwrap();
    let decoded = stmt.decode_payload().unwrap();
    assert_eq!(decoded.subject, payload.subject);
    assert_eq!(decoded.predicate, payload.predicate);

    let unprotected = extract_unprotected(stmt.to_bytes()).unwrap();
    assert!(unprotected.len() > 1, "unprotected header must contain anchor data");

    let verify_result = parse_and_verify_ed25519(stmt.to_bytes(), &vk);
    assert!(verify_result.is_ok(), "signature verifies with external_aad binding");
}

#[test]
fn test_composite_statement() {
    let payload = AxiomPayload::new([0xab; 32], Predicate::Attests);
    let ed_sk = [0x42u8; 32];
    let ml_sk = counting_seed();

    let stmt = Statement::sign_composite(&payload, &ed_sk, &ml_sk).unwrap();
    let decoded = stmt.decode_payload().unwrap();
    assert_eq!(decoded.subject, payload.subject);
    assert_eq!(decoded.predicate, payload.predicate);
}

#[test]
fn statement_hashes_and_lineage() {
    let mut payload = AxiomPayload::new([0x05; 32], Predicate::Appends);
    payload.lineage = Some([0x06; 32]);
    let stmt = Statement::sign_ed25519(&payload, &[0x07u8; 32]).unwrap();
    assert_eq!(stmt.cose_hash(), blake3(stmt.to_bytes()));
    assert_eq!(stmt.payload_hash().unwrap(), blake3(&payload.encode()));
    assert_eq!(stmt.extract_payload_bytes().unwrap(), payload.encode());
    assert_eq!(stmt.lineage().unwrap(), Some([0x06; 32]));
    assert_eq!(stmt.object().unwrap(), None);
    assert_eq!(stmt.timestamp().unwrap(), None);
}

#[test]
fn statement_from_bytes_rejects_garbage() {
    assert!(Statement::from_bytes(b"").is_err());
    assert!(Statement::from_bytes(&[0x83, 0x40, 0xa0, 0x40]).is_err());
    // only the envelope structure is checked here
    assert!(Statement::from_bytes(&[0x84, 0x40, 0xa0, 0x40, 0x40]).is_ok());
}

#[test]
fn statement_anchor_reads_back_from_envelope() {
    let payload = AxiomPayload::new([0x0c; 32], Predicate::Endorses);
    let sk = [0x43u8; 32];
    let log_pk = ed25519_verifying_key(&[0x44u8; 32]);
    let anchor = TemporalAnchor {
        inclusion_proof: LogInclusionProof { leaf_index: 3, siblings: vec![[1u8; 32], [2u8; 32]] },
        signed_tree_head: SignedTreeHead::new(1700000123, 4, [0xcd; 32], vec![7u8; 64], log_pk.to_vec()),
    };
    let stmt = Statement::sign_ed25519_and_anchor(&payload, &sk, &anchor).unwrap();
    assert_eq!(verax::ct::extract_temporal_anchor(stmt.to_bytes()), Some(anchor.clone()));
    assert_eq!(stmt.decode_payload().unwrap(), payload);

    let composite = Statement::sign_composite_and_anchor(&payload, &sk, &counting_seed(), &anchor).unwrap();
    assert_eq!(verax::ct::extract_temporal_anchor(composite.to_bytes()), Some(anchor));
}
