//! Protocol error type shared by every module of the crate.
use vstd::prelude::*;
use vstd::string::StringExecFns;

verus! {

/// Protocol-level error covering encoding, decoding, signature, lineage,
/// transparency-log and cryptographic failures.
#[derive(Debug, Clone, PartialEq, Eq)]
pub enum Error {
    /// Invalid COSE_Sign1 envelope structure.
    MalformedCose(String),
    /// CBOR encoding violates the determinism rules.
    NonCanonicalEncoding,
    /// Ed25519 or composite signature verification failed.
    InvalidSignature,
    /// Lineage chain validation failed.
    BrokenLineage(String),
    /// The subject of a child statement differs from its parent's.
    LineageSubjectMismatch,
    /// A child statement is older than its parent.
    TimestampMonotonicityViolation,
    /// The issuer of a REVOKES statement differs from the revoked statement's.
    RevokeIssuerMismatch,
    /// A transparency-log proof is malformed or does not verify.
    InvalidLogProof(String),
    /// The statement has been revoked.
    Revoked,
    /// A required field has an invalid value.
    InvalidField(&'static str),
    /// Cryptographic primitive failure.
    Crypto(String),
    /// CBOR structural decode error.
    Decode(String),
    /// Hash length mismatch.
    HashLength {
        /// Expected length in bytes.
        expected: usize,
        /// Actual length in bytes.
        actual: usize,
    },
    /// I/O failure.
    Io(String),
    /// Payload field validation failure.
    Payload(String),
    /// Recovery policy validation failure.
    RecoveryPolicyViolation(String),
    /// The anchor hash in the payload does not match the CT anchor.
    AnchorHashMismatch,
    /// Lineage traversal exceeded its depth limit.
    LineageDepthExceeded,
    /// CBOR encoding failure.
    Encode(String),
}

/// Convenience alias for results carrying an [`Error`].
pub type Result<T> = core::result::Result<T, Error>;

/// The variant of an [`Error`], without its message; contracts speak of it.
pub enum ErrorKind {
    MalformedCose,
    NonCanonicalEncoding,
    InvalidSignature,
    BrokenLineage,
    LineageSubjectMismatch,
    TimestampMonotonicityViolation,
    RevokeIssuerMismatch,
    InvalidLogProof,
    Revoked,
    InvalidField,
    Crypto,
    Decode,
    HashLength,
    Io,
    Payload,
    RecoveryPolicyViolation,
    AnchorHashMismatch,
    LineageDepthExceeded,
    Encode,
}

impl Error {
    /// The variant of this error.
    pub open spec fn kind(self) -> ErrorKind {
        match self {
            Error::MalformedCose(_) => ErrorKind::MalformedCose,
            Error::NonCanonicalEncoding => ErrorKind::NonCanonicalEncoding,
            Error::InvalidSignature => ErrorKind::InvalidSignature,
            Error::BrokenLineage(_) => ErrorKind::BrokenLineage,
            Error::LineageSubjectMismatch => ErrorKind::LineageSubjectMismatch,
            Error::TimestampMonotonicityViolation => ErrorKind::TimestampMonotonicityViolation,
            Error::RevokeIssuerMismatch => ErrorKind::RevokeIssuerMismatch,
            Error::InvalidLogProof(_) => ErrorKind::InvalidLogProof,
            Error::Revoked => ErrorKind::Revoked,
            Error::InvalidField(_) => ErrorKind::InvalidField,
            Error::Crypto(_) => ErrorKind::Crypto,
            Error::Decode(_) => ErrorKind::Decode,
            Error::HashLength { .. } => ErrorKind::HashLength,
            Error::Io(_) => ErrorKind::Io,
            Error::Payload(_) => ErrorKind::Payload,
            Error::RecoveryPolicyViolation(_) => ErrorKind::RecoveryPolicyViolation,
            Error::AnchorHashMismatch => ErrorKind::AnchorHashMismatch,
            Error::LineageDepthExceeded => ErrorKind::LineageDepthExceeded,
            Error::Encode(_) => ErrorKind::Encode,
        }
    }

    /// The numeric error code of this error (1 through 19), as the
    /// language bindings report it.
    pub fn code(&self) -> (c: u32)
        ensures
            1 <= c <= 19,
            c == spec_error_code(self.kind()),
    {
        match self {
            Error::MalformedCose(_) => 1,
            Error::NonCanonicalEncoding => 2,
            Error::InvalidSignature => 3,
            Error::BrokenLineage(_) => 4,
            Error::LineageSubjectMismatch => 5,
            Error::TimestampMonotonicityViolation => 6,
            Error::RevokeIssuerMismatch => 7,
            Error::InvalidLogProof(_) => 8,
            Error::Revoked => 9,
            Error::InvalidField(_) => 10,
            Error::Crypto(_) => 11,
            Error::Decode(_) => 12,
            Error::HashLength { .. } => 13,
            Error::Io(_) => 14,
            Error::Payload(_) => 15,
            Error::RecoveryPolicyViolation(_) => 16,
            Error::AnchorHashMismatch => 17,
            Error::LineageDepthExceeded => 18,
            Error::Encode(_) => 19,
        }
    }
}

impl Error {
    /// The code the C binding reports for this error (1 through 18): as
    /// [`Error::code`] up to 15, then 16 for an encoding failure, 17 for
    /// both anchor and lineage-depth failures, and 18 for a recovery-policy
    /// violation.
    pub fn binding_code(&self) -> (c: i32)
        ensures
            1 <= c <= 18,
            c == spec_binding_code(self.kind()),
    {
        match self {
            Error::Encode(_) => 16,
            Error::AnchorHashMismatch => 17,
            Error::LineageDepthExceeded => 17,
            Error::RecoveryPolicyViolation(_) => 18,
            _ => {
                let c = self.code();
                c as i32
            },
        }
    }
}

/// The binding's error code of each variant.
pub open spec fn spec_binding_code(k: ErrorKind) -> i32 {
    match k {
        ErrorKind::Encode => 16,
        ErrorKind::AnchorHashMismatch => 17,
        ErrorKind::LineageDepthExceeded => 17,
        ErrorKind::RecoveryPolicyViolation => 18,
        _ => spec_error_code(k) as i32,
    }
}

/// Error code of each variant, in declaration order.
pub open spec fn spec_error_code(k: ErrorKind) -> u32 {
    match k {
        ErrorKind::MalformedCose => 1,
        ErrorKind::NonCanonicalEncoding => 2,
        ErrorKind::InvalidSignature => 3,
        ErrorKind::BrokenLineage => 4,
        ErrorKind::LineageSubjectMismatch => 5,
        ErrorKind::TimestampMonotonicityViolation => 6,
        ErrorKind::RevokeIssuerMismatch => 7,
        ErrorKind::InvalidLogProof => 8,
        ErrorKind::Revoked => 9,
        ErrorKind::InvalidField => 10,
        ErrorKind::Crypto => 11,
        ErrorKind::Decode => 12,
        ErrorKind::HashLength => 13,
        ErrorKind::Io => 14,
        ErrorKind::Payload => 15,
        ErrorKind::RecoveryPolicyViolation => 16,
        ErrorKind::AnchorHashMismatch => 17,
        ErrorKind::LineageDepthExceeded => 18,
        ErrorKind::Encode => 19,
    }
}

/// The decimal digit `d` (0 to 9).
pub open spec fn digit_char(d: nat) -> char {
    if d == 0 { '0' } else if d == 1 { '1' } else if d == 2 { '2' } else if d == 3 { '3' } else if d == 4 { '4' }
    else if d == 5 { '5' } else if d == 6 { '6' } else if d == 7 { '7' } else if d == 8 { '8' } else { '9' }
}

/// The decimal form of `n`, without leading zeros.
pub open spec fn decimal_text(n: nat) -> Seq<char>
    decreases n,
{
    if n < 10 { seq![digit_char(n)] } else { decimal_text(n / 10).push(digit_char(n % 10)) }
}

fn digit_str(d: u64) -> (r: &'static str)
    requires
        d < 10,
    ensures
        r@ == seq![digit_char(d as nat)],
{
    proof {
        reveal_strlit("0");
        reveal_strlit("1");
        reveal_strlit("2");
        reveal_strlit("3");
        reveal_strlit("4");
        reveal_strlit("5");
        reveal_strlit("6");
        reveal_strlit("7");
        reveal_strlit("8");
        reveal_strlit("9");
    }
    if d == 0 { "0" } else if d == 1 { "1" } else if d == 2 { "2" } else if d == 3 { "3" } else if d == 4 { "4" }
    else if d == 5 { "5" } else if d == 6 { "6" } else if d == 7 { "7" } else if d == 8 { "8" } else { "9" }
}

/// Appends the decimal form of `n` to `s`.
pub fn append_decimal(s: &mut String, n: u64)
    ensures
        final(s)@ == old(s)@ + decimal_text(n as nat),
    decreases n,
{
    if n >= 10 {
        append_decimal(s, n / 10);
    }
    s.append(digit_str(n % 10));
    assert(final(s)@ =~= old(s)@ + decimal_text(n as nat));
}

/// The decimal form of `n`, with a leading minus sign when negative.
pub open spec fn signed_decimal_text(n: int) -> Seq<char> {
    if n < 0 { seq!['-'] + decimal_text((-n) as nat) } else { decimal_text(n as nat) }
}

/// Appends the decimal form of `n`, sign included, to `s`.
pub fn append_signed_decimal(s: &mut String, n: i64)
    ensures
        final(s)@ == old(s)@ + signed_decimal_text(n as int),
{
    if n < 0 {
        proof {
            reveal_strlit("-");
        }
        s.append("-");
        let m: u64 = if n == i64::MIN { 9223372036854775808u64 } else { (-n) as u64 };
        append_decimal(s, m);
        assert(final(s)@ =~= old(s)@ + signed_decimal_text(n as int));
    } else {
        append_decimal(s, n as u64);
    }
}

/// The message an error carries (empty for the variants without one).
pub open spec fn error_message(e: Error) -> Seq<char> {
    match e {
        Error::MalformedCose(m) => m@,
        Error::BrokenLineage(m) => m@,
        Error::InvalidLogProof(m) => m@,
        Error::InvalidField(name) => name@,
        Error::Crypto(m) => m@,
        Error::Decode(m) => m@,
        Error::Io(m) => m@,
        Error::Payload(m) => m@,
        Error::RecoveryPolicyViolation(m) => m@,
        Error::Encode(m) => m@,
        _ => Seq::empty(),
    }
}

/// The text of an error, as it is shown to people.
pub open spec fn spec_error_text(e: Error) -> Seq<char> {
    match e {
        Error::MalformedCose(m) => "malformed COSE: "@ + m@,
        Error::NonCanonicalEncoding => "non-canonical CBOR encoding"@,
        Error::InvalidSignature => "invalid signature"@,
        Error::BrokenLineage(m) => "broken lineage: "@ + m@,
        Error::LineageSubjectMismatch => "lineage subject mismatch"@,
        Error::TimestampMonotonicityViolation => "timestamp monotonicity violation"@,
        Error::RevokeIssuerMismatch => "REVOKES issuer does not match revoked statement issuer"@,
        Error::InvalidLogProof(m) => "invalid log proof: "@ + m@,
        Error::Revoked => "statement has been revoked"@,
        Error::InvalidField(name) => "invalid field: "@ + name@,
        Error::Crypto(m) => "crypto error: "@ + m@,
        Error::Decode(m) => "decode error: "@ + m@,
        Error::HashLength { expected, actual } =>
            "hash length: expected "@ + decimal_text(expected as nat) + ", got "@ + decimal_text(actual as nat),
        Error::Io(m) => "I/O error: "@ + m@,
        Error::Payload(m) => "payload error: "@ + m@,
        Error::RecoveryPolicyViolation(m) => "recovery policy violation: "@ + m@,
        Error::AnchorHashMismatch => "anchor hash mismatch"@,
        Error::LineageDepthExceeded => "lineage traversal depth exceeded"@,
        Error::Encode(m) => "encode error: "@ + m@,
    }
}

fn prefixed(prefix: &str, msg: &String) -> (r: String)
    ensures
        r@ == prefix@ + msg@,
{
    let mut s = prefix.to_owned();
    s.append(msg.as_str());
    s
}

impl Error {
    /// The text of the error (`spec_error_text`), as it is shown to people.
    pub fn text(&self) -> (r: String)
        ensures
            r@ == spec_error_text(*self),
    {
        match self {
            Error::MalformedCose(m) => prefixed("malformed COSE: ", m),
            Error::NonCanonicalEncoding => "non-canonical CBOR encoding".to_owned(),
            Error::InvalidSignature => "invalid signature".to_owned(),
            Error::BrokenLineage(m) => prefixed("broken lineage: ", m),
            Error::LineageSubjectMismatch => "lineage subject mismatch".to_owned(),
            Error::TimestampMonotonicityViolation => "timestamp monotonicity violation".to_owned(),
            Error::RevokeIssuerMismatch => "REVOKES issuer does not match revoked statement issuer".to_owned(),
            Error::InvalidLogProof(m) => prefixed("invalid log proof: ", m),
            Error::Revoked => "statement has been revoked".to_owned(),
            Error::InvalidField(name) => {
                let mut s = "invalid field: ".to_owned();
                s.append(name);
                s
            },
            Error::Crypto(m) => prefixed("crypto error: ", m),
            Error::Decode(m) => prefixed("decode error: ", m),
            Error::HashLength { expected, actual } => {
                let mut s = "hash length: expected ".to_owned();
                append_decimal(&mut s, *expected as u64);
                s.append(", got ");
                append_decimal(&mut s, *actual as u64);
                s
            },
            Error::Io(m) => prefixed("I/O error: ", m),
            Error::Payload(m) => prefixed("payload error: ", m),
            Error::RecoveryPolicyViolation(m) => prefixed("recovery policy violation: ", m),
            Error::AnchorHashMismatch => "anchor hash mismatch".to_owned(),
            Error::LineageDepthExceeded => "lineage traversal depth exceeded".to_owned(),
            Error::Encode(m) => prefixed("encode error: ", m),
        }
    }
}

/// A decode error carrying `msg`.
pub fn decode_error(msg: &str) -> (e: Error)
    ensures
        e.kind() == ErrorKind::Decode,
        e matches Error::Decode(m) && m@ == msg@,
{
    Error::Decode(msg.to_owned())
}

/// A payload error carrying `msg`.
pub fn payload_error(msg: &str) -> (e: Error)
    ensures
        e.kind() == ErrorKind::Payload,
        e matches Error::Payload(m) && m@ == msg@,
{
    Error::Payload(msg.to_owned())
}

/// A malformed-envelope error carrying `msg`.
pub fn malformed_error(msg: &str) -> (e: Error)
    ensures
        e.kind() == ErrorKind::MalformedCose,
        e matches Error::MalformedCose(m) && m@ == msg@,
{
    Error::MalformedCose(msg.to_owned())
}

/// A cryptographic error carrying `msg`.
pub fn crypto_error(msg: &str) -> (e: Error)
    ensures
        e.kind() == ErrorKind::Crypto,
        e matches Error::Crypto(m) && m@ == msg@,
{
    Error::Crypto(msg.to_owned())
}

/// A log-proof error carrying `msg`.
pub fn log_proof_error(msg: &str) -> (e: Error)
    ensures
        e.kind() == ErrorKind::InvalidLogProof,
        e matches Error::InvalidLogProof(m) && m@ == msg@,
{
    Error::InvalidLogProof(msg.to_owned())
}

} // verus!
