//! Error codes: the numbering of the error type and the codes the C binding
//! reports.
use verax::error::Error;
use verax::error::{crypto_error, decode_error, log_proof_error, malformed_error, payload_error};

#[test]
fn test_error_code_16_encode() {
    let err = Error::Encode("test encode error".into());
    let code = match &err {
        Error::Encode(_) => 16i32,
        _ => unreachable!(),
    };
    assert_eq!(code, 16);
    assert_eq!(err.binding_code(), 16);
}

#[test]
fn test_error_code_17_spec_error() {
    for err in &[Error::AnchorHashMismatch, Error::LineageDepthExceeded] {
        let code = match err {
            Error::AnchorHashMismatch | Error::LineageDepthExceeded => 17i32,
            _ => unreachable!(),
        };
        assert_eq!(code, 17);
        assert_eq!(err.binding_code(), 17);
    }
}

#[test]
fn test_error_code_18_recovery_policy() {
    let err = Error::RecoveryPolicyViolation("guardian not in policy".into());
    let code = match &err {
        Error::RecoveryPolicyViolation(_) => 18i32,
        _ => unreachable!(),
    };
    assert_eq!(code, 18);
    assert_eq!(err.binding_code(), 18);
}

#[test]
fn test_all_error_codes_1_to_18() {
    let test_cases: Vec<(Error, i32)> = vec![
        (Error::MalformedCose("".into()), 1),
        (Error::NonCanonicalEncoding, 2),
        (Error::InvalidSignature, 3),
        (Error::BrokenLineage("".into()), 4),
        (Error::LineageSubjectMismatch, 5),
        (Error::TimestampMonotonicityViolation, 6),
        (Error::RevokeIssuerMismatch, 7),
        (Error::InvalidLogProof("".into()), 8),
        (Error::Revoked, 9),
        (Error::InvalidField("test"), 10),
        (Error::Crypto("".into()), 11),
        (Error::Decode("".into()), 12),
        (Error::HashLength { expected: 32, actual: 16 }, 13),
        (Error::Io("".into()), 14),
        (Error::Payload("".into()), 15),
        (Error::Encode("".into()), 16),
        (Error::AnchorHashMismatch, 17),
        (Error::LineageDepthExceeded, 17),
        (Error::RecoveryPolicyViolation("".into()), 18),
    ];
    for (err, expected_code) in &test_cases {
        let code = match err {
            Error::MalformedCose(_) => 1,
            Error::NonCanonicalEncoding => 2,
            Error::InvalidSignature => 3,
            Error::BrokenLineage(_) => 4,
            Error::LineageSubjectMismatch => 5,
            Error::TimestampMonotonicityViolation => 6,
            Error::RevokeIssuerMismatch => 7,
            Error::InvalidLogProof(_) => 8,
            Error::Revoked => 9,
            Error::InvalidField(_) => 10,
            Error::Crypto(_) => 11,
            Error::Decode(_) => 12,
            Error::HashLength { .. } => 13,
            Error::Io(_) => 14,
            Error::Payload(_) => 15,
            Error::Encode(_) => 16,
            Error::AnchorHashMismatch | Error::LineageDepthExceeded => 17,
            Error::RecoveryPolicyViolation(_) => 18,
        };
        assert_eq!(code, *expected_code, "error {err:?} expected code {expected_code}, got {code}");
        assert_eq!(err.binding_code(), *expected_code);
    }
}

#[test]
fn error_codes_follow_declaration_order() {
    assert_eq!(Error::MalformedCose("".into()).code(), 1);
    assert_eq!(Error::Payload("".into()).code(), 15);
    assert_eq!(Error::RecoveryPolicyViolation("".into()).code(), 16);
    assert_eq!(Error::AnchorHashMismatch.code(), 17);
    assert_eq!(Error::LineageDepthExceeded.code(), 18);
    assert_eq!(Error::Encode("".into()).code(), 19);
}

#[test]
fn error_constructors_keep_their_message() {
    assert_eq!(malformed_error("bad envelope"), Error::MalformedCose("bad envelope".into()));
    assert_eq!(decode_error("short"), Error::Decode("short".into()));
    assert_eq!(payload_error("no subject"), Error::Payload("no subject".into()));
    assert_eq!(crypto_error("unknown key ID"), Error::Crypto("unknown key ID".into()));
    assert_eq!(log_proof_error("stale"), Error::InvalidLogProof("stale".into()));
}

#[test]
fn error_text_matches_the_display_form() {
    assert_eq!(Error::Crypto("bad".into()).text(), "crypto error: bad");
    assert_eq!(Error::Revoked.text(), "statement has been revoked");
    assert_eq!(Error::InvalidField("predicate").text(), "invalid field: predicate");
    assert_eq!(Error::HashLength { expected: 32, actual: 7 }.text(), "hash length: expected 32, got 7");
    assert_eq!(Error::LineageDepthExceeded.text(), "lineage traversal depth exceeded");
}
