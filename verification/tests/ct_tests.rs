//! Transparency-log anchors: Merkle inclusion proofs, tree heads and their
//! CBOR form.
use ed25519_dalek::Signer;
use sha2::Digest;
use verax::cose::ed25519_verifying_key;
use verax::ct::{extract_temporal_anchor, LogInclusionProof, SignedTreeHead, TemporalAnchor};
use verax::hash;

fn sha256_leaf(leaf: &[u8; 32]) -> [u8; 32] {
    sha2::Sha256::new().chain_update([0x00u8]).chain_update(leaf).finalize().into()
}

fn sha256_node(left: &[u8; 32], right: &[u8; 32]) -> [u8; 32] {
    sha2::Sha256::new().chain_update([0x01u8]).chain_update(left).chain_update(right).finalize().into()
}

#[test]
fn test_inclusion_proof_single_leaf() {
    let data = hash::blake3(b"single leaf");
    let root: [u8; 32] = sha2::Sha256::new().chain_update([0x00u8]).chain_update(&data).finalize().into();
    let proof = LogInclusionProof { leaf_index: 0, siblings: vec![] };
    assert!(proof.verify(&data, &root));
}

#[test]
fn test_inclusion_proof_two_leaves() {
    let leaf0 = hash::blake3(b"leaf0");
    let leaf1 = hash::blake3(b"leaf1");

    let h0 = sha256_leaf(&leaf0);
    let h1 = sha256_leaf(&leaf1);
    let root = sha256_node(&h0, &h1);

    let proof = LogInclusionProof { leaf_index: 0, siblings: vec![h1] };
    assert!(proof.verify(&leaf0, &root));
}

#[test]
fn test_inclusion_proof_rejects_wrong_leaf() {
    let leaf0 = hash::blake3(b"leaf0");
    let leaf1 = hash::blake3(b"leaf1");
    let wrong = hash::blake3(b"wrong");

    let h0 = sha256_leaf(&leaf0);
    let h1 = sha256_leaf(&leaf1);
    let root = sha256_node(&h0, &h1);

    let proof = LogInclusionProof { leaf_index: 0, siblings: vec![h1] };
    assert!(!proof.verify(&wrong, &root));
}

#[test]
fn ct_right_leaf_of_four() {
    let leaves: Vec<[u8; 32]> = (0u8..4).map(|i| hash::blake3(&[i])).collect();
    let h: Vec<[u8; 32]> = leaves.iter().map(sha256_leaf).collect();
    let n01 = sha256_node(&h[0], &h[1]);
    let n23 = sha256_node(&h[2], &h[3]);
    let root = sha256_node(&n01, &n23);
    let proof = LogInclusionProof { leaf_index: 3, siblings: vec![h[2], n01] };
    assert_eq!(proof.compute_root(&leaves[3]), root);
    assert!(proof.verify(&leaves[3], &root));
    let wrong_index = LogInclusionProof { leaf_index: 2, siblings: vec![h[2], n01] };
    assert!(!wrong_index.verify(&leaves[3], &root));
}

#[test]
fn ct_proof_and_tree_head_cbor_roundtrip() {
    let proof = LogInclusionProof { leaf_index: 7, siblings: vec![[1u8; 32], [2u8; 32]] };
    let bytes = proof.to_cbor();
    let mut off = 0usize;
    let back = LogInclusionProof::from_cbor(&bytes, &mut off).unwrap();
    assert_eq!(back, proof);
    assert_eq!(off, bytes.len());

    let pk = ed25519_verifying_key(&[3u8; 32]);
    let sth = SignedTreeHead::new(1700000000, 8, [4u8; 32], vec![5u8; 64], pk.to_vec());
    assert_eq!(sth.log_id, hash::blake3(&pk).to_vec());
    assert_eq!(sth.tree_hash_algorithm, 0);
    let bytes = sth.to_cbor();
    let mut off = 0usize;
    let back = SignedTreeHead::from_cbor(&bytes, &mut off).unwrap();
    assert_eq!(back, sth);
    assert_eq!(off, bytes.len());
}

#[test]
fn ct_inclusion_and_tree_head_signature() {
    let payload_hash = hash::blake3(b"statement payload");
    let root = sha256_leaf(&payload_hash);
    let seed = [9u8; 32];
    let sk = ed25519_dalek::SigningKey::from_bytes(&seed);
    let mut msg = Vec::new();
    msg.extend_from_slice(&1700000000u64.to_be_bytes());
    msg.extend_from_slice(&1u64.to_be_bytes());
    msg.extend_from_slice(&root);
    let sig = sk.sign(&msg).to_bytes().to_vec();
    let pk = ed25519_verifying_key(&seed);
    let anchor = TemporalAnchor {
        inclusion_proof: LogInclusionProof { leaf_index: 0, siblings: vec![] },
        signed_tree_head: SignedTreeHead::new(1700000000, 1, root, sig, pk.to_vec()),
    };
    assert!(anchor.verify_inclusion(&payload_hash).is_ok());
    assert!(anchor.verify_inclusion(&[0u8; 32]).is_err());
    assert!(anchor.verify_sth_signature(Some(&pk)).is_ok());
    assert!(anchor.verify_sth_signature(None).is_err());
    let other = ed25519_verifying_key(&[8u8; 32]);
    assert!(anchor.verify_sth_signature(Some(&other)).is_err());
}

#[test]
fn ct_no_anchor_in_plain_envelope() {
    let stmt = verax::statement::Statement::sign_ed25519(
        &verax::cbor::AxiomPayload::new([1u8; 32], verax::predicate::Predicate::Attests),
        &[2u8; 32],
    )
    .unwrap();
    assert!(extract_temporal_anchor(stmt.to_bytes()).is_none());
}
