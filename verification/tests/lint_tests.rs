//! The payload linter.
use verax::cbor::{Value, VeraxPayload};
use verax::cose::extract_protected;
use verax::lint::{lint_payload, protected_uses_ed25519, LintWarning, LINT_PAYLOAD_LIMIT};
use verax::predicate::Predicate;
use verax::statement::Statement;

#[test]
fn lint_minimal_payload_reports_missing_timestamp_only() {
    let p = VeraxPayload::new([1u8; 32], Predicate::Attests);
    assert_eq!(lint_payload(&p, p.encode().len()), vec![LintWarning::MissingTimestamp]);
}

#[test]
fn lint_reports_every_finding_in_order() {
    let mut p = VeraxPayload::new([0u8; 32], Predicate::Revokes);
    p.nonce = Some([2u8; 32]);
    p.lineage = Some([0u8; 32]);
    p.extensions = Some(vec![(100, Value::Uint(1)), (101, Value::Uint(2))]);
    assert_eq!(
        lint_payload(&p, LINT_PAYLOAD_LIMIT + 1),
        vec![
            LintWarning::MissingTimestamp,
            LintWarning::ZeroSubject,
            LintWarning::RevokesWithoutObject,
            LintWarning::NonceWithoutTimestamp,
            LintWarning::ZeroLineage,
            LintWarning::Extensions(2),
            LintWarning::LargePayload(1025),
        ]
    );
}

#[test]
fn lint_clean_payload_has_no_findings() {
    let mut p = VeraxPayload::new([1u8; 32], Predicate::DerivedFrom);
    p.timestamp = Some(1700000000);
    p.object = Some([3u8; 32]);
    p.extensions = Some(vec![]);
    assert!(lint_payload(&p, 100).is_empty());
    let mut q = VeraxPayload::new([1u8; 32], Predicate::Supersedes);
    q.timestamp = Some(1);
    assert_eq!(lint_payload(&q, 10), vec![LintWarning::SupersedesWithoutObject]);
    q.predicate = Predicate::DerivedFrom;
    assert_eq!(lint_payload(&q, LINT_PAYLOAD_LIMIT), vec![LintWarning::DerivedFromWithoutObject]);
}

#[test]
fn lint_detects_plain_ed25519_envelopes() {
    let p = VeraxPayload::new([1u8; 32], Predicate::Attests);
    let ed = Statement::sign_ed25519(&p, &[4u8; 32]).unwrap();
    let prot = extract_protected(ed.to_bytes()).unwrap();
    assert!(protected_uses_ed25519(&prot));
    let comp = Statement::sign_composite(&p, &[4u8; 32], &[5u8; 32]).unwrap();
    let prot = extract_protected(comp.to_bytes()).unwrap();
    assert!(!protected_uses_ed25519(&prot));
    assert!(!protected_uses_ed25519(&[0x01, 0x27, 0x04]));
    assert!(protected_uses_ed25519(&[0xff, 0x01, 0x27, 0x04, 0x58]));
}
