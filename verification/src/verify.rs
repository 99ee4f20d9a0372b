//! Statement verification: envelope and payload checks, signature
//! verification under keys from a trust store, lineage, revocation and
//! recovery rules, and temporal anchors.
use vstd::prelude::*;
use vstd::string::StringExecFns;
use crate::cbor::{decode_map_len, decode_negative_int, decode_bstr, decode_uint, skip_value, spec_decode_head,
    spec_decode_string, spec_negative_value, spec_skip};
use crate::cbor_payload::{AxiomPayload, PayloadModel, spec_decode_payload, spec_is_strictly_deterministic};
use crate::cose::{
    CompositePublicKey, VerificationMode, kid_from_protected, parse_and_verify_composite, parse_and_verify_ed25519,
    parse_and_verify_mldsa65_only, spec_kid_of, spec_parse_cose, spec_verify_composite, spec_verify_ed25519,
    spec_verify_mldsa65,
};
use crate::crypto::{ed25519_point_valid, spec_blake3, spec_ed25519_point_valid};
use crate::error::{
    Error, ErrorKind, Result, append_decimal, error_message, append_signed_decimal, crypto_error, decimal_text, malformed_error,
    signed_decimal_text,
};
use crate::predicate::Predicate;
use crate::statement::Statement;

verus! {

/// Maximum number of ancestors followed along a lineage chain.
pub const MAX_LINEAGE_DEPTH: u64 = 1024;
/// Maximum number of key rotations followed to resolve a key.
pub const MAX_ROTATION_DEPTH: u64 = 100;
/// Age of a tree head, relative to the statement, past which it is stale:
/// 90 days in seconds.
pub const MAX_STH_STALE_DELTA: u64 = 7776000;

// ---------------------------------------------------------------------
// Warnings

/// A condition that does not fail verification but is reported.
#[derive(Debug, Clone, PartialEq, Eq, Structural)]
pub enum Warning {
    /// The statement carries no temporal anchor.
    TemporalEvidenceMissing,
    /// The log could not say whether the statement was revoked.
    RevocationStatusUnknown,
    /// The tree head is older than allowed relative to the statement
    /// timestamp.
    StaleSth {
        /// Timestamp of the tree head.
        sth_timestamp: u64,
        /// Timestamp of the statement.
        statement_timestamp: u64,
        /// Their difference.
        delta: u64,
    },
}

/// The name by which a warning is reported to other languages.
pub open spec fn spec_warning_code(w: Warning) -> Seq<char> {
    match w {
        Warning::TemporalEvidenceMissing => "temporal_evidence_missing"@,
        Warning::RevocationStatusUnknown => "revocation_status_unknown"@,
        Warning::StaleSth { .. } => "stale_sth"@,
    }
}

impl Warning {
    /// The name by which the warning is reported (`spec_warning_code`).
    pub fn code_name(&self) -> (r: &'static str)
        ensures
            r@ == spec_warning_code(*self),
    {
        match self {
            Warning::TemporalEvidenceMissing => "temporal_evidence_missing",
            Warning::RevocationStatusUnknown => "revocation_status_unknown",
            Warning::StaleSth { .. } => "stale_sth",
        }
    }
}

/// Warnings gathered while verifying a statement.
#[derive(Debug, Clone, PartialEq, Eq)]
pub struct VerificationWarnings {
    /// The warnings, in the order they arose.
    pub warnings: Vec<Warning>,
}

impl VerificationWarnings {
    /// No warnings.
    pub fn new() -> (r: Self)
        ensures
            r.warnings@ == Seq::<Warning>::empty(),
    {
        VerificationWarnings { warnings: Vec::new() }
    }

    /// Appends a warning.
    pub fn push(&mut self, w: Warning)
        ensures
            final(self).warnings@ == old(self).warnings@.push(w),
    {
        self.warnings.push(w);
    }

    /// Whether no `TemporalEvidenceMissing` warning was raised.
    pub fn has_temporal_evidence(&self) -> (r: bool)
        ensures
            r == !self.warnings@.contains(Warning::TemporalEvidenceMissing),
    {
        let mut i: usize = 0;
        while i < self.warnings.len()
            invariant
                i <= self.warnings@.len(),
                forall|j: int| 0 <= j < i ==> self.warnings@[j] != Warning::TemporalEvidenceMissing,
            decreases self.warnings@.len() - i,
        {
            if self.warnings[i] == Warning::TemporalEvidenceMissing {
                return false;
            }
            i = i + 1;
        }
        true
    }
}

// ---------------------------------------------------------------------
// Trust store

/// Where verification finds keys, earlier statements, and log answers.
/// Applications implement it over their own key material and storage.
///
/// A store written in verified code can describe its answers: it sets
/// `obeys_store_spec` and defines the spec functions, and each method then
/// answers as its spec function says, the same answer to the same
/// question. The verifier's result is stated over those answers. A store
/// that keeps the defaults promises nothing about its answers.
pub trait TrustStore {
    /// Whether the methods answer as the spec functions below say.
    open spec fn obeys_store_spec() -> bool {
        false
    }

    /// The Ed25519 public key registered under `kid`.
    open spec fn key_for(&self, kid: Seq<u8>) -> Option<Seq<u8>> {
        None
    }

    /// The composite key (Ed25519, ML-DSA-65) registered under `kid`.
    open spec fn composite_key_for(&self, kid: Seq<u8>) -> Option<(Seq<u8>, Seq<u8>)> {
        None
    }

    /// The ML-DSA-65 public key registered under `kid`.
    open spec fn mldsa65_key_for(&self, kid: Seq<u8>) -> Option<Seq<u8>> {
        None
    }

    /// The statement stored under the hash `hash`.
    open spec fn statement_for(&self, hash: Seq<u8>) -> Option<Seq<u8>> {
        None
    }

    /// The log's answer on whether `stmt_hash` was revoked after `after`.
    open spec fn revocation_for(&self, stmt_hash: Seq<u8>, after: u64) -> Option<bool> {
        None
    }

    /// The trusted key of the log `log_id`, given the key a tree head carries.
    open spec fn log_key_for(&self, log_id: Seq<u8>, candidate: Seq<u8>) -> Option<Seq<u8>> {
        None
    }

    /// The Ed25519 key for `kid` after following key rotations.
    open spec fn rotated_key_for(&self, kid: Seq<u8>) -> Option<Seq<u8>> {
        None
    }

    /// The 32-byte Ed25519 public key registered under `kid`.
    fn resolve_key(&self, kid: &[u8]) -> (r: Option<[u8; 32]>)
        ensures
            Self::obeys_store_spec() ==> opt_seq32(r) == self.key_for(kid@);

    /// The composite public key registered under `kid`.
    fn resolve_composite_key(&self, kid: &[u8]) -> (r: Option<CompositePublicKey>)
        ensures
            Self::obeys_store_spec() ==> opt_composite(r) == self.composite_key_for(kid@);

    /// The ML-DSA-65 public key registered under `kid` (a store without
    /// such keys answers `None`).
    fn resolve_mldsa65_key(&self, kid: &[u8]) -> (r: Option<[u8; 1952]>)
        ensures
            Self::obeys_store_spec() ==> opt_seq1952(r) == self.mldsa65_key_for(kid@);

    /// The envelope bytes of the statement whose BLAKE3 hash is `hash`.
    fn fetch_statement(&self, hash: &[u8; 32]) -> (r: Option<Vec<u8>>)
        ensures
            Self::obeys_store_spec() ==> opt_vec(r) == self.statement_for(hash@);

    /// Whether the log recorded a revocation of the statement `stmt_hash`
    /// after `after_timestamp`; `None` when it cannot tell.
    fn is_revoked_in_log(&self, stmt_hash: &[u8; 32], after_timestamp: u64) -> (r: Option<bool>)
        ensures
            Self::obeys_store_spec() ==> r == self.revocation_for(stmt_hash@, after_timestamp);

    /// The trusted public key of the log `log_id`, given the key the tree
    /// head carries (a store trusting no log answers `None`).
    fn resolve_log_pubkey(&self, log_id: &[u8; 32], candidate_key: &[u8; 32]) -> (r: Option<[u8; 32]>)
        ensures
            Self::obeys_store_spec() ==> opt_seq32(r) == self.log_key_for(log_id@, candidate_key@);

    /// The Ed25519 key for `kid`, following key rotations where the store
    /// supports them (`resolve_rotated_key_default` walks them); a store
    /// without rotations answers as `resolve_key`.
    fn resolve_rotated_key(&self, kid: &[u8]) -> (r: Option<[u8; 32]>)
        ensures
            Self::obeys_store_spec() ==> opt_seq32(r) == self.rotated_key_for(kid@);
}

// ---------------------------------------------------------------------
// Protected header

/// Checking `n` more entries of a protected header at `off`: keys in
/// strictly ascending order, `alg` an integer, `kid` a byte string, other
/// values skippable. The result is the offset after them.
pub open spec fn spec_protected_entries(prot: Seq<u8>, off: int, n: nat, prev: u64) -> core::result::Result<int, ErrorKind>
    decreases n,
{
    if n == 0 {
        Ok(off)
    } else {
        match spec_decode_head(prot, off, 0) {
            None => Err(ErrorKind::Decode),
            Some((key, o)) => if key <= prev {
                Err(ErrorKind::MalformedCose)
            } else if key == 1 {
                if o < 0 || o >= prot.len() {
                    Err(ErrorKind::MalformedCose)
                } else {
                    match spec_decode_head(prot, o, if prot[o] / 32 == 1 { 1u8 } else { 0u8 }) {
                        None => Err(ErrorKind::Decode),
                        Some((_, o2)) => spec_protected_entries(prot, o2, (n - 1) as nat, key),
                    }
                }
            } else if key == 4 {
                match spec_decode_string(prot, o, 2) {
                    None => Err(ErrorKind::Decode),
                    Some((_, o2)) => spec_protected_entries(prot, o2, (n - 1) as nat, key),
                }
            } else {
                match spec_skip(prot, o, 0) {
                    None => Err(ErrorKind::Decode),
                    Some(o2) => spec_protected_entries(prot, o2, (n - 1) as nat, key),
                }
            },
        }
    }
}

/// A protected header in canonical form: a map whose entries pass
/// `spec_protected_entries` and fill it exactly.
pub open spec fn spec_check_protected(prot: Seq<u8>) -> core::result::Result<(), ErrorKind> {
    match spec_decode_head(prot, 0, 5) {
        None => Err(ErrorKind::Decode),
        Some((n, o)) => match spec_protected_entries(prot, o, n as nat, 0) {
            Err(e) => Err(e),
            Ok(end) => if end != prot.len() { Err(ErrorKind::MalformedCose) } else { Ok(()) },
        },
    }
}

fn check_protected_header_determinism(protected: &[u8]) -> (r: Result<()>)
    ensures
        match spec_check_protected(protected@) {
            Ok(()) => r is Ok,
            Err(k) => r matches Err(e) && e.kind() == k,
        },
{
    let mut offset: usize = 0;
    let map_len = decode_map_len(protected, &mut offset)?;
    let ghost o = offset as int;
    let mut prev_key: u64 = 0;
    let mut i: u64 = 0;
    while i < map_len
        invariant
            i <= map_len,
            spec_decode_head(protected@, 0, 5) == Some((map_len, o)),
            spec_protected_entries(protected@, o, map_len as nat, 0)
                == spec_protected_entries(protected@, offset as int, (map_len - i) as nat, prev_key),
        decreases map_len - i,
    {
        let key = decode_uint(protected, &mut offset)?;
        if key <= prev_key {
            return Err(malformed_error("protected header keys not in canonical order"));
        }
        prev_key = key;
        if key == 1 {
            if offset >= protected.len() {
                return Err(malformed_error("truncated alg in protected header"));
            }
            if protected[offset] / 32 == 1 {
                decode_negative_int(protected, &mut offset)?;
            } else {
                decode_uint(protected, &mut offset)?;
            }
        } else if key == 4 {
            decode_bstr(protected, &mut offset)?;
        } else {
            skip_value(protected, &mut offset)?;
        }
        i = i + 1;
    }
    if offset != protected.len() {
        return Err(malformed_error("trailing data in protected header"));
    }
    Ok(())
}

/// Search for `alg` (key 1) among `n` more entries at `off`; a negative
/// integer or an unsigned one (reinterpreted as signed) is accepted.
pub open spec fn spec_find_alg(prot: Seq<u8>, off: int, n: nat) -> core::result::Result<i64, ErrorKind>
    decreases n,
{
    if n == 0 || off < 0 || off >= prot.len() {
        Err(ErrorKind::Crypto)
    } else {
        match spec_decode_head(prot, off, 0) {
            None => Err(ErrorKind::Decode),
            Some((key, o)) => if key == 1 {
                if o >= prot.len() {
                    Err(ErrorKind::Crypto)
                } else if prot[o] / 32 == 1 {
                    match spec_decode_head(prot, o, 1) {
                        None => Err(ErrorKind::Decode),
                        Some((v, _)) => Ok(spec_negative_value(v)),
                    }
                } else {
                    match spec_decode_head(prot, o, 0) {
                        None => Err(ErrorKind::Decode),
                        Some((v, _)) => Ok(v as i64),
                    }
                }
            } else {
                match spec_skip(prot, o, 0) {
                    None => Err(ErrorKind::Decode),
                    Some(o2) => spec_find_alg(prot, o2, (n - 1) as nat),
                }
            },
        }
    }
}

/// The `alg` of a protected header.
pub open spec fn spec_alg_of(prot: Seq<u8>) -> core::result::Result<i64, ErrorKind> {
    match spec_decode_head(prot, 0, 5) {
        None => Err(ErrorKind::Decode),
        Some((n, o)) => spec_find_alg(prot, o, n as nat),
    }
}

fn extract_alg_id(protected: &[u8]) -> (r: Result<i64>)
    ensures
        match spec_alg_of(protected@) {
            Ok(a) => r == Ok::<i64, Error>(a),
            Err(k) => r matches Err(e) && e.kind() == k,
        },
{
    let mut offset: usize = 0;
    let map_len = decode_map_len(protected, &mut offset)?;
    let ghost o = offset as int;
    let mut i: u64 = 0;
    while i < map_len
        invariant
            i <= map_len,
            spec_decode_head(protected@, 0, 5) == Some((map_len, o)),
            spec_find_alg(protected@, o, map_len as nat) == spec_find_alg(protected@, offset as int, (map_len - i) as nat),
        decreases map_len - i,
    {
        if offset >= protected.len() {
            return Err(crypto_error("algorithm ID not found in protected header"));
        }
        let key = decode_uint(protected, &mut offset)?;
        if key == 1 {
            if offset >= protected.len() {
                return Err(crypto_error("truncated protected header"));
            }
            if protected[offset] / 32 == 1 {
                return decode_negative_int(protected, &mut offset);
            }
            let v = decode_uint(protected, &mut offset)?;
            return Ok(v as i64);
        }
        skip_value(protected, &mut offset)?;
        i = i + 1;
    }
    Err(crypto_error("algorithm ID not found in protected header"))
}

/// The key identifier must suit the algorithm: a valid 32-byte Ed25519
/// key for -8, 32 bytes (a hash of the composite key) for -39, 1952 bytes
/// for -38; other algorithms are refused.
pub open spec fn spec_alg_kid_binding(alg_id: i64, kid: Seq<u8>) -> core::result::Result<(), ErrorKind> {
    if alg_id == -8 {
        if kid.len() != 32 || !spec_ed25519_point_valid(kid) { Err(ErrorKind::Crypto) } else { Ok(()) }
    } else if alg_id == -39 {
        if kid.len() != 32 { Err(ErrorKind::Crypto) } else { Ok(()) }
    } else if alg_id == -38 {
        if kid.len() != 1952 { Err(ErrorKind::Crypto) } else { Ok(()) }
    } else {
        Err(ErrorKind::Crypto)
    }
}

/// The message of a refused algorithm and key identifier pair.
pub open spec fn spec_alg_kid_message(alg_id: i64, kid: Seq<u8>) -> Seq<char> {
    if alg_id == -8 {
        if kid.len() != 32 {
            "alg=-8 (Ed25519) requires 32-byte KID, got "@ + decimal_text(kid.len()) + " bytes"@
        } else {
            "alg=-8 KID is not a valid Ed25519 public key"@
        }
    } else if alg_id == -39 {
        "alg=-39 (composite) requires 32-byte KID (BLAKE3 of composite key), got "@ + decimal_text(kid.len()) + " bytes"@
    } else if alg_id == -38 {
        "alg=-38 (ML-DSA-65) requires 1952-byte KID, got "@ + decimal_text(kid.len()) + " bytes"@
    } else {
        unsupported_alg_message(alg_id)
    }
}

/// The message for an algorithm identifier the protocol does not know.
pub open spec fn unsupported_alg_message(alg_id: i64) -> Seq<char> {
    "unsupported algorithm ID: "@ + signed_decimal_text(alg_id as int)
}

fn unsupported_alg_error(alg_id: i64) -> (e: Error)
    ensures
        e.kind() == ErrorKind::Crypto,
        e matches Error::Crypto(m) && m@ == unsupported_alg_message(alg_id),
{
    let mut m = "unsupported algorithm ID: ".to_owned();
    append_signed_decimal(&mut m, alg_id);
    Error::Crypto(m)
}

fn kid_length_error(prefix: &str, len: usize) -> (e: Error)
    ensures
        e.kind() == ErrorKind::Crypto,
        e matches Error::Crypto(m) && m@ == prefix@ + decimal_text(len as nat) + " bytes"@,
{
    let mut m = prefix.to_owned();
    append_decimal(&mut m, len as u64);
    m.append(" bytes");
    Error::Crypto(m)
}

pub fn validate_algorithm_kid_binding(alg_id: i64, kid: &[u8]) -> (r: Result<()>)
    ensures
        match spec_alg_kid_binding(alg_id, kid@) {
            Ok(()) => r is Ok,
            Err(k) => r matches Err(e) && e.kind() == k,
        },
        r matches Err(e) ==> (e matches Error::Crypto(m) && m@ == spec_alg_kid_message(alg_id, kid@)),
{
    if alg_id == -8 {
        if kid.len() != 32 {
            return Err(kid_length_error("alg=-8 (Ed25519) requires 32-byte KID, got ", kid.len()));
        }
        let arr: [u8; 32] = crate::cose::to_array(kid);
        if !ed25519_point_valid(&arr) {
            return Err(crypto_error("alg=-8 KID is not a valid Ed25519 public key"));
        }
    } else if alg_id == -39 {
        if kid.len() != 32 {
            return Err(kid_length_error("alg=-39 (composite) requires 32-byte KID (BLAKE3 of composite key), got ", kid.len()));
        }
    } else if alg_id == -38 {
        if kid.len() != 1952 {
            return Err(kid_length_error("alg=-38 (ML-DSA-65) requires 1952-byte KID, got ", kid.len()));
        }
    } else {
        return Err(unsupported_alg_error(alg_id));
    }
    Ok(())
}

// ---------------------------------------------------------------------
// Envelope checks

/// What the envelope checks establish before any key is looked up.
pub struct EnvelopeModel {
    pub payload_bytes: Seq<u8>,
    pub payload: PayloadModel,
    pub alg: i64,
    pub kid: Seq<u8>,
}

/// Checks of an envelope that need no trust store: it parses, its payload
/// is in strict deterministic form and decodes, its protected header is
/// canonical, and `alg` and `kid` are present and suit each other.
#[verifier::opaque]
pub open spec fn spec_check_envelope(cose: Seq<u8>) -> core::result::Result<EnvelopeModel, ErrorKind> {
    match spec_parse_cose(cose) {
        Err(e) => Err(e),
        Ok(p) => if !spec_is_strictly_deterministic(p.payload) {
            Err(ErrorKind::NonCanonicalEncoding)
        } else {
            match spec_decode_payload(p.payload) {
                Err(e) => Err(e),
                Ok(m) => match spec_check_protected(p.protected) {
                    Err(e) => Err(e),
                    Ok(()) => match spec_alg_of(p.protected) {
                        Err(e) => Err(e),
                        Ok(alg) => match spec_kid_of(p.protected) {
                            Err(e) => Err(e),
                            Ok(kid) => match spec_alg_kid_binding(alg, kid) {
                                Err(e) => Err(e),
                                Ok(()) => Ok(EnvelopeModel { payload_bytes: p.payload, payload: m, alg, kid }),
                            },
                        },
                    },
                },
            }
        },
    }
}

struct Envelope {
    statement: Statement,
    payload_bytes: Vec<u8>,
    payload: AxiomPayload,
    alg: i64,
    kid: Vec<u8>,
}

impl Envelope {
    spec fn model(&self) -> EnvelopeModel {
        EnvelopeModel { payload_bytes: self.payload_bytes@, payload: self.payload@, alg: self.alg, kid: self.kid@ }
    }
}

fn check_envelope(cose_bytes: &[u8]) -> (r: Result<Envelope>)
    ensures
        match spec_check_envelope(cose_bytes@) {
            Ok(m) => r matches Ok(env) && env.model() == m && env.statement.cose_bytes@ == cose_bytes@,
            Err(k) => r matches Err(e) && e.kind() == k,
        },
        r matches Ok(env) ==> spec_decode_payload(env.payload_bytes@) == Ok::<PayloadModel, ErrorKind>(env.payload@),
{
    reveal(spec_check_envelope);
    let statement = Statement::from_bytes(cose_bytes)?;
    let payload_bytes = statement.extract_payload_bytes()?;
    if !crate::cbor_payload::is_strictly_deterministic(payload_bytes.as_slice()) {
        return Err(Error::NonCanonicalEncoding);
    }
    let payload = AxiomPayload::decode(payload_bytes.as_slice())?;
    let protected = crate::cose::extract_protected(cose_bytes)?;
    check_protected_header_determinism(protected.as_slice())?;
    let alg = extract_alg_id(protected.as_slice())?;
    let kid = kid_from_protected(protected.as_slice())?;
    validate_algorithm_kid_binding(alg, kid.as_slice())?;
    Ok(Envelope { statement, payload_bytes, payload, alg, kid })
}

/// Outcome of verifying a statement against one Ed25519 public key.
pub open spec fn spec_verify_statement_ed25519(cose: Seq<u8>, pk: Seq<u8>) -> core::result::Result<(), ErrorKind> {
    match spec_check_envelope(cose) {
        Err(e) => Err(e),
        Ok(_) => match spec_verify_ed25519(cose, pk) {
            Err(e) => Err(e),
            Ok(_) => Ok(()),
        },
    }
}

/// Verifies a statement against one Ed25519 public key: the envelope
/// checks, then the signature.
pub fn verify_statement_ed25519(cose_bytes: &[u8], pubkey: &[u8; 32]) -> (r: Result<Statement>)
    ensures
        match spec_verify_statement_ed25519(cose_bytes@, pubkey@) {
            Ok(()) => r matches Ok(s) && s.cose_bytes@ == cose_bytes@,
            Err(k) => r matches Err(e) && e.kind() == k,
        },
{
    let env = check_envelope(cose_bytes)?;
    parse_and_verify_ed25519(cose_bytes, pubkey)?;
    assert(spec_check_envelope(cose_bytes@) is Ok);
    Ok(env.statement)
}

// ---------------------------------------------------------------------
// Signature, object, lineage, revocation and recovery checks

/// Views of optional composite keys.
pub open spec fn opt_composite(o: Option<CompositePublicKey>) -> Option<(Seq<u8>, Seq<u8>)> {
    match o {
        Some(k) => Some((k.ed25519@, k.mldsa65@)),
        None => None,
    }
}

/// Views of optional byte arrays and vectors.
pub open spec fn opt_seq32(o: Option<[u8; 32]>) -> Option<Seq<u8>> {
    match o {
        Some(k) => Some(k@),
        None => None,
    }
}

/// Views of optional ML-DSA-65 keys.
pub open spec fn opt_seq1952(o: Option<[u8; 1952]>) -> Option<Seq<u8>> {
    match o {
        Some(k) => Some(k@),
        None => None,
    }
}

/// Views of optional byte vectors.
pub open spec fn opt_vec(o: Option<Vec<u8>>) -> Option<Seq<u8>> {
    match o {
        Some(k) => Some(k@),
        None => None,
    }
}

/// Signature check by algorithm, with the key the trust store gave for
/// the `kid` (`None`: unknown key): Ed25519 (-8), composite in hybrid mode
/// (-39), ML-DSA-65 (-38).
#[verifier::opaque]
pub open spec fn spec_signature_check(
    cose: Seq<u8>,
    alg: i64,
    ed_key: Option<Seq<u8>>,
    composite_key: Option<(Seq<u8>, Seq<u8>)>,
    ml_key: Option<Seq<u8>>,
) -> core::result::Result<(), ErrorKind> {
    if alg == -8 {
        match ed_key {
            None => Err(ErrorKind::Crypto),
            Some(pk) => match spec_verify_ed25519(cose, pk) { Err(e) => Err(e), Ok(_) => Ok(()) },
        }
    } else if alg == -39 {
        match composite_key {
            None => Err(ErrorKind::Crypto),
            Some((e, m)) => match spec_verify_composite(cose, e, m, VerificationMode::Hybrid) {
                Err(x) => Err(x),
                Ok(_) => Ok(()),
            },
        }
    } else if alg == -38 {
        match ml_key {
            None => Err(ErrorKind::Crypto),
            Some(pk) => match spec_verify_mldsa65(cose, pk) { Err(e) => Err(e), Ok(_) => Ok(()) },
        }
    } else {
        Err(ErrorKind::Crypto)
    }
}

/// Predicates relating the subject to an object, which must be present.
pub open spec fn needs_object(p: Predicate) -> bool {
    p == Predicate::DerivedFrom || p == Predicate::Supersedes || p == Predicate::Revokes || p == Predicate::CompliesWith
}

/// Object check: binary predicates need an object.
pub open spec fn spec_object_check(p: PayloadModel) -> core::result::Result<(), ErrorKind> {
    if needs_object(p.predicate) && p.object is None { Err(ErrorKind::Payload) } else { Ok(()) }
}

fn check_object(payload: &AxiomPayload) -> (r: Result<()>)
    ensures
        match spec_object_check(payload@) {
            Ok(()) => r is Ok,
            Err(k) => r matches Err(e) && e.kind() == k
                && error_message(e) == crate::predicate::predicate_name(payload@.predicate)@
                    + " predicate requires an object field"@,
        },
{
    let p = payload.predicate;
    if (p == Predicate::DerivedFrom || p == Predicate::Supersedes || p == Predicate::Revokes
        || p == Predicate::CompliesWith) && payload.object.is_none() {
        let mut m = p.name().to_owned();
        m.append(" predicate requires an object field");
        return Err(Error::Payload(m));
    }
    Ok(())
}

/// One link of a lineage chain, from a statement to its parent: an
/// `Appends` statement keeps its parent's subject, and where both carry a
/// timestamp the child's is not earlier, and equal only with a nonce.
pub open spec fn spec_lineage_step(
    cur_ts: Option<u64>,
    prev_ts: Option<u64>,
    cur_nonce_present: bool,
    cur_predicate: Predicate,
    cur_subject: Seq<u8>,
    prev_subject: Seq<u8>,
) -> core::result::Result<(), ErrorKind> {
    if cur_predicate == Predicate::Appends && cur_subject != prev_subject {
        Err(ErrorKind::LineageSubjectMismatch)
    } else if cur_ts is Some && prev_ts is Some && (cur_ts.unwrap() < prev_ts.unwrap()
        || (cur_ts.unwrap() == prev_ts.unwrap() && !cur_nonce_present)) {
        Err(ErrorKind::TimestampMonotonicityViolation)
    } else {
        Ok(())
    }
}

/// Checks one lineage link (see `spec_lineage_step`).
pub fn check_lineage_step(
    cur_ts: Option<u64>,
    prev_ts: Option<u64>,
    cur_nonce: Option<[u8; 32]>,
    cur_predicate: Predicate,
    cur_subject: [u8; 32],
    prev_subject: [u8; 32],
) -> (r: Result<()>)
    ensures
        match spec_lineage_step(cur_ts, prev_ts, cur_nonce is Some, cur_predicate, cur_subject@, prev_subject@) {
            Ok(()) => r is Ok,
            Err(k) => r matches Err(e) && e.kind() == k,
        },
{
    if cur_predicate == Predicate::Appends {
        if !crate::cbor_payload::bytes_eq(cur_subject.as_slice(), prev_subject.as_slice()) {
            return Err(Error::LineageSubjectMismatch);
        }
    }
    if let Some(c) = cur_ts {
        if let Some(p) = prev_ts {
            if c < p {
                return Err(Error::TimestampMonotonicityViolation);
            }
            if c == p && cur_nonce.is_none() {
                return Err(Error::TimestampMonotonicityViolation);
            }
        }
    }
    Ok(())
}

/// Lineage steps never fail for a non-`Appends` child whose timestamp is
/// later than its parent's, or equal with a nonce; a child earlier than
/// its parent, or equal without a nonce, always fails; an `Appends` child
/// with a different subject fails when the timestamps are in order.
pub proof fn law_lineage_step(cur_ts: u64, prev_ts: u64, nonce: bool, pred: Predicate, cs: Seq<u8>, ps: Seq<u8>)
    ensures
        pred != Predicate::Appends && (cur_ts > prev_ts || (cur_ts == prev_ts && nonce))
            ==> spec_lineage_step(Some(cur_ts), Some(prev_ts), nonce, pred, cs, ps) is Ok,
        (pred != Predicate::Appends || cs == ps) && (cur_ts < prev_ts || (cur_ts == prev_ts && !nonce))
            ==> spec_lineage_step(Some(cur_ts), Some(prev_ts), nonce, pred, cs, ps)
                == Err::<(), ErrorKind>(ErrorKind::TimestampMonotonicityViolation),
        pred == Predicate::Appends && cs != ps
            ==> spec_lineage_step(Some(cur_ts), Some(prev_ts), nonce, pred, cs, ps)
                == Err::<(), ErrorKind>(ErrorKind::LineageSubjectMismatch),
{
}

/// An `Appends` statement keeps its parent's subject: whatever the
/// timestamps and the nonce, a link to a parent with another subject is
/// refused with `LineageSubjectMismatch`.
pub proof fn law_appends_needs_same_subject(cur_ts: Option<u64>, prev_ts: Option<u64>, nonce: bool, cs: Seq<u8>, ps: Seq<u8>)
    requires
        cs != ps,
    ensures
        spec_lineage_step(cur_ts, prev_ts, nonce, Predicate::Appends, cs, ps)
            == Err::<(), ErrorKind>(ErrorKind::LineageSubjectMismatch),
{
}

/// Following a lineage link from an `Appends` statement, whatever the
/// trust store returned, leads only to a parent with the same subject.
pub proof fn law_appends_link_keeps_subject(cur: PayloadModel, fetched: Option<Seq<u8>>)
    requires
        cur.predicate == Predicate::Appends,
        cur.lineage is Some,
    ensures
        spec_lineage_link(cur, fetched) matches Ok(prev) ==> prev.subject == cur.subject,
{
    reveal(spec_lineage_link);
}

/// Following one lineage link of `cur` (whose `lineage` is set), given
/// the statement bytes the trust store returned for the parent hash.
#[verifier::opaque]
pub open spec fn spec_lineage_link(cur: PayloadModel, fetched: Option<Seq<u8>>) -> core::result::Result<PayloadModel, ErrorKind> {
    match fetched {
        None => Err(ErrorKind::BrokenLineage),
        Some(b) => if spec_blake3(b) != cur.lineage.unwrap() {
            Err(ErrorKind::BrokenLineage)
        } else {
            match spec_parse_cose(b) {
                Err(_) => Err(ErrorKind::BrokenLineage),
                Ok(p) => if !spec_is_strictly_deterministic(p.payload) {
                    Err(ErrorKind::BrokenLineage)
                } else {
                    match spec_decode_payload(p.payload) {
                        Err(_) => Err(ErrorKind::BrokenLineage),
                        Ok(prev) => match spec_lineage_step(cur.timestamp, prev.timestamp, cur.nonce is Some,
                            cur.predicate, cur.subject, prev.subject) {
                            Err(e) => Err(e),
                            Ok(()) => Ok(prev),
                        },
                    }
                },
            }
        },
    }
}

/// The message of a lineage link that breaks: no parent returned, a parent
/// under another hash, or a parent whose payload cannot be read.
pub open spec fn spec_link_message(cur: PayloadModel, fetched: Option<Seq<u8>>) -> Seq<char> {
    match fetched {
        None => "previous statement not found"@,
        Some(b) => if spec_blake3(b) != cur.lineage.unwrap() {
            "lineage hash does not match fetched statement"@
        } else {
            match spec_parse_cose(b) {
                Err(_) => "previous statement payload extraction failed"@,
                Ok(p) => if !spec_is_strictly_deterministic(p.payload) {
                    "previous statement has non-canonical payload"@
                } else {
                    "previous statement payload decode failed"@
                },
            }
        },
    }
}

/// Walking up to `fuel` links of the lineage chain from `cur`, the trust
/// store's answers to the successive parent lookups being `answers`.
pub open spec fn spec_lineage_from(cur: PayloadModel, answers: Seq<Option<Seq<u8>>>, fuel: nat) -> core::result::Result<(), ErrorKind>
    decreases fuel,
{
    if cur.lineage is None {
        Ok(())
    } else if fuel == 0 {
        Err(ErrorKind::LineageDepthExceeded)
    } else if answers.len() == 0 {
        Err(ErrorKind::BrokenLineage)
    } else {
        match spec_lineage_link(cur, answers[0]) {
            Err(e) => Err(e),
            Ok(prev) => spec_lineage_from(prev, answers.drop_first(), (fuel - 1) as nat),
        }
    }
}

fn lineage_link(cur: &AxiomPayload, prev_hash: &[u8; 32], fetched: Option<Vec<u8>>) -> (r: Result<AxiomPayload>)
    requires
        cur.lineage == Some(*prev_hash),
    ensures
        match spec_lineage_link(cur@, opt_vec(fetched)) {
            Ok(m) => r matches Ok(p) && p@ == m,
            Err(k) => r matches Err(e) && e.kind() == k,
        },
        r matches Err(Error::BrokenLineage(m)) ==> m@ == spec_link_message(cur@, opt_vec(fetched)),
{
    reveal(spec_lineage_link);
    let prev_bytes = match fetched {
        Some(b) => b,
        None => { return Err(Error::BrokenLineage("previous statement not found".to_owned())); },
    };
    let actual = crate::hash::blake3(prev_bytes.as_slice());
    if !crate::cbor_payload::bytes_eq(actual.as_slice(), prev_hash.as_slice()) {
        return Err(Error::BrokenLineage("lineage hash does not match fetched statement".to_owned()));
    }
    let prev_payload_bytes = match crate::cose::extract_payload(prev_bytes.as_slice()) {
        Ok(b) => b,
        Err(_) => { return Err(Error::BrokenLineage("previous statement payload extraction failed".to_owned())); },
    };
    if !crate::cbor_payload::is_strictly_deterministic(prev_payload_bytes.as_slice()) {
        return Err(Error::BrokenLineage("previous statement has non-canonical payload".to_owned()));
    }
    let prev = match AxiomPayload::decode(prev_payload_bytes.as_slice()) {
        Ok(p) => p,
        Err(_) => { return Err(Error::BrokenLineage("previous statement payload decode failed".to_owned())); },
    };
    check_lineage_step(cur.timestamp, prev.timestamp, cur.nonce, cur.predicate, cur.subject, prev.subject)?;
    Ok(prev)
}

/// Check of a `Revokes` statement against the revoked statement the trust
/// store returned for its object: same issuer `kid`, and a later
/// timestamp where both carry one.
#[verifier::opaque]
pub open spec fn spec_revokes_check(p: PayloadModel, kid: Seq<u8>, fetched: Option<Seq<u8>>) -> core::result::Result<(), ErrorKind> {
    if p.predicate != Predicate::Revokes || p.object is None || fetched is None {
        Ok(())
    } else {
        match spec_parse_cose(fetched.unwrap()) {
            Err(e) => Err(e),
            Ok(rp) => match spec_kid_of(rp.protected) {
                Err(e) => Err(e),
                Ok(rk) => if kid != rk {
                    Err(ErrorKind::RevokeIssuerMismatch)
                } else if p.timestamp is Some && (crate::statement::spec_statement_payload(fetched.unwrap()) matches Ok(tp)
                    && tp.timestamp is Some && p.timestamp.unwrap() <= tp.timestamp.unwrap()) {
                    Err(ErrorKind::TimestampMonotonicityViolation)
                } else {
                    Ok(())
                },
            },
        }
    }
}

fn check_revokes(payload: &AxiomPayload, kid: &Vec<u8>, fetched: Option<Vec<u8>>) -> (r: Result<()>)
    ensures
        match spec_revokes_check(payload@, kid@, opt_vec(fetched)) {
            Ok(()) => r is Ok,
            Err(k) => r matches Err(e) && e.kind() == k,
        },
{
    reveal(spec_revokes_check);
    if payload.predicate != Predicate::Revokes || payload.object.is_none() {
        return Ok(());
    }
    let revoked_bytes = match fetched {
        Some(b) => b,
        None => { return Ok(()); },
    };
    let revoked_protected = crate::cose::extract_protected(revoked_bytes.as_slice())?;
    let revoked_kid = kid_from_protected(revoked_protected.as_slice())?;
    if !crate::cbor_payload::bytes_eq(kid.as_slice(), revoked_kid.as_slice()) {
        return Err(Error::RevokeIssuerMismatch);
    }
    if let Some(rev_ts) = payload.timestamp {
        if let Ok(revoked_stmt) = Statement::from_bytes(revoked_bytes.as_slice()) {
            if let Ok(revoked_payload) = revoked_stmt.decode_payload() {
                if let Some(target_ts) = revoked_payload.timestamp {
                    if rev_ts <= target_ts {
                        return Err(Error::TimestampMonotonicityViolation);
                    }
                }
            }
        }
    }
    Ok(())
}

/// Whether the issuer of a `Recovers` statement is its subject: the
/// BLAKE3 hash of the issuer `kid`.
pub open spec fn recovers_issuer_ok(p: PayloadModel, kid: Seq<u8>) -> bool {
    spec_blake3(kid) == p.subject
}

/// Check of a `Recovers` statement (subject: the guardian's key hash,
/// object: the lost key's hash): the issuer is the guardian, and where the
/// trust store returned the target statement and it carries a recovery
/// policy, the policy decodes and lists the guardian.
#[verifier::opaque]
pub open spec fn spec_recovers_check(p: PayloadModel, kid: Seq<u8>, fetched: Option<Seq<u8>>) -> core::result::Result<(), ErrorKind> {
    if p.predicate != Predicate::Recovers || p.object is None {
        Ok(())
    } else if !recovers_issuer_ok(p, kid) {
        Err(ErrorKind::RecoveryPolicyViolation)
    } else {
        match fetched {
            None => Ok(()),
            Some(tb) => match crate::statement::spec_statement_payload(tb) {
                Err(_) => Ok(()),
                Ok(tp) => match tp.recovery_policy {
                    None => Ok(()),
                    Some(rp) => match crate::cbor_payload::spec_decode_policy(rp) {
                        Err(_) => Err(ErrorKind::RecoveryPolicyViolation),
                        Ok(pol) => if pol.guardians.contains(p.subject) {
                            Ok(())
                        } else {
                            Err(ErrorKind::RecoveryPolicyViolation)
                        },
                    },
                },
            },
        }
    }
}

pub(crate) fn contains_hash(hs: &Vec<[u8; 32]>, h: &[u8; 32]) -> (r: bool)
    ensures
        r == hs@.map_values(|g: [u8; 32]| g@).contains(h@),
{
    let ghost v = hs@.map_values(|g: [u8; 32]| g@);
    let mut i: usize = 0;
    while i < hs.len()
        invariant
            i <= hs@.len(),
            v == hs@.map_values(|g: [u8; 32]| g@),
            forall|j: int| 0 <= j < i ==> v[j] != h@,
        decreases hs@.len() - i,
    {
        if crate::cbor_payload::bytes_eq(hs[i].as_slice(), h.as_slice()) {
            assert(v[i as int] == h@);
            return true;
        }
        i = i + 1;
    }
    false
}

fn check_recovers_target(payload: &AxiomPayload, fetched: Option<Vec<u8>>) -> (r: Result<()>)
    requires
        payload.predicate == Predicate::Recovers,
        payload.object is Some,
    ensures
        match fetched {
            None => r is Ok,
            Some(tb) => match crate::statement::spec_statement_payload(tb@) {
                Err(_) => r is Ok,
                Ok(tp) => match tp.recovery_policy {
                    None => r is Ok,
                    Some(rp) => match crate::cbor_payload::spec_decode_policy(rp) {
                        Err(_) => r matches Err(e) && e.kind() == ErrorKind::RecoveryPolicyViolation,
                        Ok(pol) => if pol.guardians.contains(payload.subject@) {
                            r is Ok
                        } else {
                            r matches Err(e) && e.kind() == ErrorKind::RecoveryPolicyViolation
                        },
                    },
                },
            },
        },
{
    let target_bytes = match fetched {
        Some(b) => b,
        None => { return Ok(()); },
    };
    let target_payload = match Statement::from_bytes(target_bytes.as_slice()) {
        Ok(s) => match s.decode_payload() {
            Ok(p) => p,
            Err(_) => { return Ok(()); },
        },
        Err(_) => { return Ok(()); },
    };
    match &target_payload.recovery_policy {
        None => Ok(()),
        Some(rp_raw) => {
            let rp = match crate::cbor_payload::RecoveryPolicy::decode(rp_raw.as_slice()) {
                Ok(rp) => rp,
                Err(e) => {
                    let mut m = "invalid recovery policy: ".to_owned();
                    m.append(e.text().as_str());
                    return Err(Error::RecoveryPolicyViolation(m));
                },
            };
            if !contains_hash(&rp.guardians, &payload.subject) {
                return Err(Error::RecoveryPolicyViolation("issuer not in recovery policy guardian list".to_owned()));
            }
            Ok(())
        },
    }
}

// ---------------------------------------------------------------------
// Temporal anchors

/// Checks of a temporal anchor, with the log key the trust store trusts
/// for the anchor's log (`log_key`) and its answer on revocation
/// (`revoked`): 32-byte log id and key, tree-head signature, inclusion of
/// the payload hash, tree head not older than the statement. The result
/// is the warnings raised: a stale tree head (more than 90 days after the
/// statement), an unknown revocation status.
#[verifier::opaque]
pub open spec fn spec_temporal(
    a: crate::ct::AnchorModel,
    p: PayloadModel,
    payload_bytes: Seq<u8>,
    log_key: Option<Seq<u8>>,
    revoked: Option<bool>,
) -> core::result::Result<Seq<Warning>, ErrorKind> {
    if a.sth.log_id.len() != 32 || a.sth.log_pubkey.len() != 32 {
        Err(ErrorKind::InvalidLogProof)
    } else {
        match crate::ct::spec_verify_sth_signature(a.sth, log_key) {
            Err(e) => Err(e),
            Ok(()) => match crate::ct::spec_verify_inclusion(a, spec_blake3(payload_bytes)) {
                Err(e) => Err(e),
                Ok(()) => if p.timestamp is Some && a.sth.timestamp < p.timestamp.unwrap() {
                    Err(ErrorKind::InvalidLogProof)
                } else {
                    let w1 = if p.timestamp is Some && a.sth.timestamp - p.timestamp.unwrap() > MAX_STH_STALE_DELTA {
                        seq![Warning::StaleSth {
                            sth_timestamp: a.sth.timestamp,
                            statement_timestamp: p.timestamp.unwrap(),
                            delta: (a.sth.timestamp - p.timestamp.unwrap()) as u64,
                        }]
                    } else {
                        Seq::<Warning>::empty()
                    };
                    match revoked {
                        Some(true) => Err(ErrorKind::Revoked),
                        Some(false) => Ok(w1),
                        None => Ok(w1.push(Warning::RevocationStatusUnknown)),
                    }
                },
            },
        }
    }
}

/// Anchor checks of a statement: a payload that commits to an anchor hash
/// needs an unprotected header with that BLAKE3 hash and an anchor in it;
/// an anchor present is checked (`spec_temporal`); no anchor at all is
/// reported as missing temporal evidence.
#[verifier::opaque]
pub open spec fn spec_anchor_check(
    cose: Seq<u8>,
    p: PayloadModel,
    payload_bytes: Seq<u8>,
    log_key: Option<Seq<u8>>,
    revoked: Option<bool>,
) -> core::result::Result<Seq<Warning>, ErrorKind> {
    let anchor = crate::ct::spec_extract_anchor(cose);
    match p.anchor_hash {
        Some(h) => match spec_parse_cose(cose) {
            Err(_) => Err(ErrorKind::InvalidLogProof),
            Ok(pp) => if spec_blake3(pp.unprotected) != h {
                Err(ErrorKind::AnchorHashMismatch)
            } else {
                match anchor {
                    None => Err(ErrorKind::InvalidLogProof),
                    Some(a) => spec_temporal(a, p, payload_bytes, log_key, revoked),
                }
            },
        },
        None => match anchor {
            Some(a) => spec_temporal(a, p, payload_bytes, log_key, revoked),
            None => Ok(seq![Warning::TemporalEvidenceMissing]),
        },
    }
}

/// The checks of `spec_temporal` that come before the log's revocation
/// answer, with the warnings they raise.
pub open spec fn spec_temporal_pre(
    a: crate::ct::AnchorModel,
    p: PayloadModel,
    payload_bytes: Seq<u8>,
    log_key: Option<Seq<u8>>,
) -> core::result::Result<Seq<Warning>, ErrorKind> {
    if a.sth.log_id.len() != 32 || a.sth.log_pubkey.len() != 32 {
        Err(ErrorKind::InvalidLogProof)
    } else {
        match crate::ct::spec_verify_sth_signature(a.sth, log_key) {
            Err(e) => Err(e),
            Ok(()) => match crate::ct::spec_verify_inclusion(a, spec_blake3(payload_bytes)) {
                Err(e) => Err(e),
                Ok(()) => if p.timestamp is Some && a.sth.timestamp < p.timestamp.unwrap() {
                    Err(ErrorKind::InvalidLogProof)
                } else if p.timestamp is Some && a.sth.timestamp - p.timestamp.unwrap() > MAX_STH_STALE_DELTA {
                    Ok(seq![Warning::StaleSth {
                        sth_timestamp: a.sth.timestamp,
                        statement_timestamp: p.timestamp.unwrap(),
                        delta: (a.sth.timestamp - p.timestamp.unwrap()) as u64,
                    }])
                } else {
                    Ok(Seq::<Warning>::empty())
                },
            },
        }
    }
}

/// The revocation answer applied after the checks of `spec_temporal_pre`.
pub open spec fn spec_revocation_step(pre: core::result::Result<Seq<Warning>, ErrorKind>, revoked: Option<bool>)
    -> core::result::Result<Seq<Warning>, ErrorKind> {
    match pre {
        Err(e) => Err(e),
        Ok(w) => match revoked {
            Some(true) => Err(ErrorKind::Revoked),
            Some(false) => Ok(w),
            None => Ok(w.push(Warning::RevocationStatusUnknown)),
        },
    }
}

/// The message of the first failed check of `spec_temporal_pre`.
pub open spec fn spec_temporal_pre_message(
    a: crate::ct::AnchorModel,
    p: PayloadModel,
    payload_bytes: Seq<u8>,
    log_key: Option<Seq<u8>>,
) -> Seq<char> {
    if a.sth.log_id.len() != 32 {
        "STH must carry a 32-byte log_id"@
    } else if a.sth.log_pubkey.len() != 32 {
        "STH must carry a 32-byte log public key"@
    } else if crate::ct::spec_verify_sth_signature(a.sth, log_key) is Err {
        crate::ct::spec_sth_signature_message(a.sth, log_key)
    } else if crate::ct::spec_verify_inclusion(a, spec_blake3(payload_bytes)) is Err {
        crate::ct::spec_inclusion_message(a)
    } else {
        "STH timestamp is before statement timestamp"@
    }
}

/// The message of a failed `spec_temporal` (a revoked statement's error
/// carries none).
pub open spec fn spec_temporal_message(
    a: crate::ct::AnchorModel,
    p: PayloadModel,
    payload_bytes: Seq<u8>,
    log_key: Option<Seq<u8>>,
) -> Seq<char> {
    if spec_temporal_pre(a, p, payload_bytes, log_key) is Err {
        spec_temporal_pre_message(a, p, payload_bytes, log_key)
    } else {
        Seq::empty()
    }
}

proof fn lemma_temporal_split(
    a: crate::ct::AnchorModel,
    p: PayloadModel,
    payload_bytes: Seq<u8>,
    log_key: Option<Seq<u8>>,
    revoked: Option<bool>,
)
    ensures
        spec_temporal(a, p, payload_bytes, log_key, revoked)
            == spec_revocation_step(spec_temporal_pre(a, p, payload_bytes, log_key), revoked),
{
    reveal(spec_temporal);
}

/// Which anchor a statement is checked against: an error where the payload
/// commits to an anchor hash that the unprotected header does not meet,
/// else the anchor found there, if any.
pub open spec fn spec_anchor_gate(cose: Seq<u8>, p: PayloadModel)
    -> core::result::Result<Option<crate::ct::AnchorModel>, ErrorKind> {
    let anchor = crate::ct::spec_extract_anchor(cose);
    match p.anchor_hash {
        Some(h) => match spec_parse_cose(cose) {
            Err(_) => Err(ErrorKind::InvalidLogProof),
            Ok(pp) => if spec_blake3(pp.unprotected) != h {
                Err(ErrorKind::AnchorHashMismatch)
            } else {
                match anchor {
                    None => Err(ErrorKind::InvalidLogProof),
                    Some(a) => Ok(Some(a)),
                }
            },
        },
        None => Ok(anchor),
    }
}

/// The message of a failed `spec_anchor_gate` (an anchor-hash mismatch
/// carries none).
pub open spec fn spec_anchor_gate_message(cose: Seq<u8>, p: PayloadModel) -> Seq<char> {
    match spec_parse_cose(cose) {
        Err(_) => "payload commits to anchor_hash but no unprotected header found"@,
        Ok(pp) => if p.anchor_hash is Some && spec_blake3(pp.unprotected) != p.anchor_hash.unwrap() {
            Seq::empty()
        } else {
            "payload commits to anchor_hash but no temporal anchor"@
        },
    }
}

/// The message of a failed `spec_anchor_check`.
pub open spec fn spec_anchor_message(cose: Seq<u8>, p: PayloadModel, payload_bytes: Seq<u8>, log_key: Option<Seq<u8>>)
    -> Seq<char> {
    match spec_anchor_gate(cose, p) {
        Err(_) => spec_anchor_gate_message(cose, p),
        Ok(None) => Seq::empty(),
        Ok(Some(a)) => spec_temporal_message(a, p, payload_bytes, log_key),
    }
}

proof fn lemma_anchor_split(cose: Seq<u8>, p: PayloadModel, payload_bytes: Seq<u8>, log_key: Option<Seq<u8>>, revoked: Option<bool>)
    ensures
        spec_anchor_check(cose, p, payload_bytes, log_key, revoked) == match spec_anchor_gate(cose, p) {
            Err(e) => Err(e),
            Ok(None) => Ok(seq![Warning::TemporalEvidenceMissing]),
            Ok(Some(a)) => spec_temporal(a, p, payload_bytes, log_key, revoked),
        },
{
    reveal(spec_anchor_check);
}

/// Checks of `anchor` before the revocation lookup, given the log key the
/// trust store trusts; the warnings raised are appended to `warnings`.
fn temporal_pre(
    anchor: &crate::ct::TemporalAnchor,
    payload: &AxiomPayload,
    payload_bytes: &[u8],
    log_key: Option<[u8; 32]>,
    warnings: &mut VerificationWarnings,
) -> (r: Result<()>)
    ensures
        match spec_temporal_pre(anchor@, payload@, payload_bytes@, opt_seq32(log_key)) {
            Ok(ws) => r is Ok && final(warnings).warnings@ == old(warnings).warnings@ + ws,
            Err(k) => r matches Err(e) && e.kind() == k
                && error_message(e) == spec_temporal_pre_message(anchor@, payload@, payload_bytes@, opt_seq32(log_key)),
        },
{
    let sth = &anchor.signed_tree_head;
    if sth.log_id.len() != 32 {
        return Err(crate::error::log_proof_error("STH must carry a 32-byte log_id"));
    }
    if sth.log_pubkey.len() != 32 {
        return Err(crate::error::log_proof_error("STH must carry a 32-byte log public key"));
    }
    let trusted_ref: Option<&[u8; 32]> = match &log_key {
        Some(k) => Some(k),
        None => None,
    };
    anchor.verify_sth_signature(trusted_ref)?;
    let payload_hash = crate::hash::blake3(payload_bytes);
    anchor.verify_inclusion(&payload_hash)?;
    if let Some(stmt_ts) = payload.timestamp {
        if sth.timestamp < stmt_ts {
            return Err(crate::error::log_proof_error("STH timestamp is before statement timestamp"));
        }
        let delta = sth.timestamp - stmt_ts;
        if delta > MAX_STH_STALE_DELTA {
            warnings.push(Warning::StaleSth { sth_timestamp: sth.timestamp, statement_timestamp: stmt_ts, delta });
            return Ok(());
        }
    }
    assert(final(warnings).warnings@ =~= old(warnings).warnings@ + Seq::<Warning>::empty());
    Ok(())
}

/// Applies the log's revocation answer (`spec_revocation_step`).
fn revocation_step(revoked: Option<bool>, warnings: &mut VerificationWarnings) -> (r: Result<()>)
    ensures
        match revoked {
            Some(true) => r matches Err(e) && e.kind() == ErrorKind::Revoked,
            Some(false) => r is Ok && final(warnings).warnings@ == old(warnings).warnings@,
            None => r is Ok && final(warnings).warnings@ == old(warnings).warnings@.push(Warning::RevocationStatusUnknown),
        },
{
    match revoked {
        Some(true) => Err(Error::Revoked),
        Some(false) => Ok(()),
        None => {
            warnings.push(Warning::RevocationStatusUnknown);
            Ok(())
        },
    }
}

fn verify_temporal_anchor<T: TrustStore>(
    anchor: &crate::ct::TemporalAnchor,
    payload: &AxiomPayload,
    payload_bytes: &[u8],
    cose_bytes: &[u8],
    trust_anchors: &T,
    warnings: &mut VerificationWarnings,
) -> (r: Result<()>)
    ensures
        T::obeys_store_spec() ==> match spec_temporal(anchor@, payload@, payload_bytes@, temporal_log_key(*trust_anchors, anchor@),
            temporal_revocation(*trust_anchors, anchor@, payload@, payload_bytes@, cose_bytes@)) {
            Ok(ws) => r is Ok && final(warnings).warnings@ == old(warnings).warnings@ + ws,
            Err(k) => r matches Err(e) && e.kind() == k
                && error_message(e) == spec_temporal_message(anchor@, payload@, payload_bytes@,
                    temporal_log_key(*trust_anchors, anchor@)),
        },
{
    let sth = &anchor.signed_tree_head;
    let ghost lk = temporal_log_key(*trust_anchors, anchor@);
    let ghost rv = temporal_revocation(*trust_anchors, anchor@, payload@, payload_bytes@, cose_bytes@);
    // The log key is looked up only for a well-formed tree head.
    let trusted: Option<[u8; 32]> = if sth.log_id.len() == 32 && sth.log_pubkey.len() == 32 {
        let log_id: [u8; 32] = crate::cose::to_array(sth.log_id.as_slice());
        let candidate: [u8; 32] = crate::cose::to_array(sth.log_pubkey.as_slice());
        trust_anchors.resolve_log_pubkey(&log_id, &candidate)
    } else {
        None
    };
    assert(T::obeys_store_spec() ==> opt_seq32(trusted) == lk);
    proof {
        lemma_temporal_split(anchor@, payload@, payload_bytes@, lk, rv);
    }
    let ghost w0 = warnings.warnings@;
    if let Err(e) = temporal_pre(anchor, payload, payload_bytes, trusted, warnings) {
        return Err(e);
    }
    let stmt_hash = crate::hash::blake3(cose_bytes);
    let revoked = trust_anchors.is_revoked_in_log(&stmt_hash, sth.timestamp);
    assert(T::obeys_store_spec() ==> revoked == rv);
    let res = revocation_step(revoked, warnings);
    proof {
        if T::obeys_store_spec() {
            let ws = spec_temporal_pre(anchor@, payload@, payload_bytes@, lk)->Ok_0;
            if revoked == Some(false) {
                assert(warnings.warnings@ == w0 + ws);
            } else if revoked is None {
                assert(warnings.warnings@ =~= w0 + ws.push(Warning::RevocationStatusUnknown));
            }
        }
    }
    res
}

/// Checks of `anchor` (`spec_temporal`) with the log key and revocation
/// answer at hand.
fn temporal_with(
    anchor: &crate::ct::TemporalAnchor,
    payload: &AxiomPayload,
    payload_bytes: &[u8],
    log_key: Option<[u8; 32]>,
    revoked: Option<bool>,
    warnings: &mut VerificationWarnings,
) -> (r: Result<()>)
    ensures
        match spec_temporal(anchor@, payload@, payload_bytes@, opt_seq32(log_key), revoked) {
            Ok(ws) => r is Ok && final(warnings).warnings@ == old(warnings).warnings@ + ws,
            Err(k) => r matches Err(e) && e.kind() == k
                && error_message(e) == spec_temporal_message(anchor@, payload@, payload_bytes@, opt_seq32(log_key)),
        },
{
    proof {
        lemma_temporal_split(anchor@, payload@, payload_bytes@, opt_seq32(log_key), revoked);
    }
    let ghost w0 = warnings.warnings@;
    temporal_pre(anchor, payload, payload_bytes, log_key, warnings)?;
    let res = revocation_step(revoked, warnings);
    proof {
        let ws = spec_temporal_pre(anchor@, payload@, payload_bytes@, opt_seq32(log_key))->Ok_0;
        if revoked is None {
            assert(warnings.warnings@ =~= w0 + ws.push(Warning::RevocationStatusUnknown));
        }
    }
    res
}

/// The anchor a statement is checked against (`spec_anchor_gate`).
fn anchor_gate(cose_bytes: &[u8], payload: &AxiomPayload) -> (r: Result<Option<crate::ct::TemporalAnchor>>)
    ensures
        match spec_anchor_gate(cose_bytes@, payload@) {
            Err(k) => r matches Err(e) && e.kind() == k && error_message(e) == spec_anchor_gate_message(cose_bytes@, payload@),
            Ok(None) => r matches Ok(None),
            Ok(Some(a)) => r matches Ok(Some(x)) && x@ == a,
        },
{
    let anchor = crate::ct::extract_temporal_anchor(cose_bytes);
    match &payload.anchor_hash {
        Some(expected) => {
            let uh = match crate::cose::extract_unprotected(cose_bytes) {
                Ok(u) => u,
                Err(_) => {
                    return Err(crate::error::log_proof_error("payload commits to anchor_hash but no unprotected header found"));
                },
            };
            let actual = crate::hash::blake3(uh.as_slice());
            if !crate::cbor_payload::bytes_eq(actual.as_slice(), expected.as_slice()) {
                return Err(Error::AnchorHashMismatch);
            }
            match anchor {
                None => Err(crate::error::log_proof_error("payload commits to anchor_hash but no temporal anchor")),
                Some(a) => Ok(Some(a)),
            }
        },
        None => Ok(anchor),
    }
}

fn check_anchor<T: TrustStore>(cose_bytes: &[u8], payload: &AxiomPayload, payload_bytes: &Vec<u8>, trust_anchors: &T)
    -> (r: Result<VerificationWarnings>)
    ensures
        T::obeys_store_spec() ==> match spec_anchor_check(cose_bytes@, payload@, payload_bytes@, anchor_log_key(*trust_anchors, cose_bytes@, payload@),
            anchor_revocation(*trust_anchors, cose_bytes@, payload@, payload_bytes@)) {
            Ok(ws) => r matches Ok(w) && w.warnings@ == ws,
            Err(k) => r matches Err(e) && e.kind() == k && error_message(e)
                == spec_anchor_message(cose_bytes@, payload@, payload_bytes@, anchor_log_key(*trust_anchors, cose_bytes@, payload@)),
        },
{
    proof {
        lemma_anchor_split(cose_bytes@, payload@, payload_bytes@, anchor_log_key(*trust_anchors, cose_bytes@, payload@),
            anchor_revocation(*trust_anchors, cose_bytes@, payload@, payload_bytes@));
    }
    let mut warnings = VerificationWarnings::new();
    match anchor_gate(cose_bytes, payload) {
        Err(e) => Err(e),
        Ok(None) => {
            warnings.push(Warning::TemporalEvidenceMissing);
            assert(warnings.warnings@ =~= seq![Warning::TemporalEvidenceMissing]);
            Ok(warnings)
        },
        Ok(Some(a)) => {
            let res = verify_temporal_anchor(&a, payload, payload_bytes.as_slice(), cose_bytes, trust_anchors, &mut warnings);
            assert(warnings.warnings@ =~= Seq::<Warning>::empty() + warnings.warnings@);
            match res {
                Ok(()) => Ok(warnings),
                Err(e) => Err(e),
            }
        },
    }
}

/// Anchor checks of a statement (`spec_anchor_check`) with the log key and
/// revocation answer at hand.
fn anchor_with(cose_bytes: &[u8], payload: &AxiomPayload, payload_bytes: &Vec<u8>, log_key: Option<[u8; 32]>, revoked: Option<bool>)
    -> (r: Result<VerificationWarnings>)
    ensures
        match spec_anchor_check(cose_bytes@, payload@, payload_bytes@, opt_seq32(log_key), revoked) {
            Ok(ws) => r matches Ok(w) && w.warnings@ == ws,
            Err(k) => r matches Err(e) && e.kind() == k
                && error_message(e) == spec_anchor_message(cose_bytes@, payload@, payload_bytes@, opt_seq32(log_key)),
        },
{
    proof {
        lemma_anchor_split(cose_bytes@, payload@, payload_bytes@, opt_seq32(log_key), revoked);
    }
    let mut warnings = VerificationWarnings::new();
    match anchor_gate(cose_bytes, payload)? {
        None => {
            warnings.push(Warning::TemporalEvidenceMissing);
            assert(warnings.warnings@ =~= seq![Warning::TemporalEvidenceMissing]);
            Ok(warnings)
        },
        Some(a) => {
            temporal_with(&a, payload, payload_bytes.as_slice(), log_key, revoked, &mut warnings)?;
            assert(warnings.warnings@ =~= Seq::<Warning>::empty() + warnings.warnings@);
            Ok(warnings)
        },
    }
}

// ---------------------------------------------------------------------
// Verifying a statement

/// The trust store's answers during one verification: the key for the
/// envelope's `kid` (under the lookup its algorithm uses), the statements
/// returned along the lineage chain, the statement returned for the
/// object of a `Revokes` or `Recovers` statement, the trusted log key, and
/// the log's revocation answer.
pub struct StoreAnswers {
    pub ed_key: Option<Seq<u8>>,
    pub composite_key: Option<(Seq<u8>, Seq<u8>)>,
    pub ml_key: Option<Seq<u8>>,
    pub lineage: Seq<Option<Seq<u8>>>,
    pub target: Option<Seq<u8>>,
    pub log_key: Option<Seq<u8>>,
    pub revoked: Option<bool>,
}

/// Outcome of verifying the statement `cose` when the trust store answers
/// `ans`: the warnings raised, or the first error, in this order: envelope
/// checks, signature, object presence, lineage (at most
/// `MAX_LINEAGE_DEPTH` links), revocation rules, recovery rules, anchor.
pub open spec fn spec_verify_statement(cose: Seq<u8>, ans: StoreAnswers) -> core::result::Result<Seq<Warning>, ErrorKind> {
    match spec_check_envelope(cose) {
        Err(e) => Err(e),
        Ok(env) => match spec_signature_check(cose, env.alg, ans.ed_key, ans.composite_key, ans.ml_key) {
            Err(e) => Err(e),
            Ok(()) => match spec_object_check(env.payload) {
                Err(e) => Err(e),
                Ok(()) => match spec_lineage_from(env.payload, ans.lineage, MAX_LINEAGE_DEPTH as nat) {
                    Err(e) => Err(e),
                    Ok(()) => match spec_revokes_check(env.payload, env.kid, ans.target) {
                        Err(e) => Err(e),
                        Ok(()) => match spec_recovers_check(env.payload, env.kid, ans.target) {
                            Err(e) => Err(e),
                            Ok(()) => spec_anchor_check(cose, env.payload, env.payload_bytes, ans.log_key, ans.revoked),
                        },
                    },
                },
            },
        },
    }
}

/// A statement of algorithm -39 verifies only under a composite key the
/// trust store knows for it, and only when both parts of its 3373-byte
/// signature verify over the envelope's to-be-signed bytes: the ML-DSA-65
/// signature (the first 3309 bytes) under the key's ML-DSA-65 half, and
/// the Ed25519ph signature (the last 64 bytes, with the library's
/// context) under its Ed25519 half.
pub proof fn law_composite_statement_needs_both_signatures(cose: Seq<u8>, ans: StoreAnswers)
    requires
        spec_check_envelope(cose) matches Ok(env) && env.alg == -39,
        spec_verify_statement(cose, ans) is Ok,
    ensures
        spec_parse_cose(cose) matches Ok(p) && ans.composite_key matches Some(k) && p.signature.len() == 3373
            && crate::crypto::spec_mldsa65_verify(k.1, crate::cose::spec_to_be_signed(p.protected, p.unprotected, p.payload),
                p.signature.subrange(0, 3309))
            && crate::crypto::spec_ed25519ph_verify(k.0, crate::cose::context_string(),
                crate::cose::spec_to_be_signed(p.protected, p.unprotected, p.payload), p.signature.subrange(3309, 3373)),
{
    reveal(spec_signature_check);
}

/// A `Recovers` statement for an identity whose statement (as the trust
/// store returns it) carries a recovery policy is accepted only when that
/// policy decodes and lists the statement's subject, the guardian's key
/// hash. Once the signature, object and lineage checks pass, a policy that
/// does not decode or does not list the guardian makes verification fail
/// with `RecoveryPolicyViolation`.
pub proof fn law_recovery_needs_listed_guardian(cose: Seq<u8>, ans: StoreAnswers, tb: Seq<u8>, tp: PayloadModel, rp: Seq<u8>)
    requires
        spec_check_envelope(cose) matches Ok(env) && env.payload.predicate == Predicate::Recovers
            && env.payload.object is Some,
        ans.target == Some(tb),
        crate::statement::spec_statement_payload(tb) == Ok::<PayloadModel, ErrorKind>(tp),
        tp.recovery_policy == Some(rp),
    ensures
        spec_verify_statement(cose, ans) is Ok ==> (crate::cbor_payload::spec_decode_policy(rp) matches Ok(pol)
            && pol.guardians.contains(spec_check_envelope(cose)->Ok_0.payload.subject)),
        ({
            let env = spec_check_envelope(cose)->Ok_0;
            &&& spec_signature_check(cose, env.alg, ans.ed_key, ans.composite_key, ans.ml_key) is Ok
            &&& spec_object_check(env.payload) is Ok
            &&& spec_lineage_from(env.payload, ans.lineage, MAX_LINEAGE_DEPTH as nat) is Ok
            &&& !(crate::cbor_payload::spec_decode_policy(rp) matches Ok(pol) && pol.guardians.contains(env.payload.subject))
        }) ==> spec_verify_statement(cose, ans) == Err::<Seq<Warning>, ErrorKind>(ErrorKind::RecoveryPolicyViolation),
{
    reveal(spec_revokes_check);
    reveal(spec_recovers_check);
}

/// The trust store's replies during one verification, as plain values:
/// the key for the envelope's `kid` under each lookup, the statements
/// returned along the lineage chain in order, the statement returned for
/// the object of a `Revokes` or `Recovers` statement, the trusted log key,
/// and the log's revocation answer.
pub struct StoreReplies {
    pub ed25519_key: Option<[u8; 32]>,
    pub composite_key: Option<CompositePublicKey>,
    pub mldsa65_key: Option<[u8; 1952]>,
    pub lineage: Vec<Option<Vec<u8>>>,
    pub target: Option<Vec<u8>>,
    pub log_key: Option<[u8; 32]>,
    pub revoked: Option<bool>,
}

impl View for StoreReplies {
    type V = StoreAnswers;

    open spec fn view(&self) -> StoreAnswers {
        StoreAnswers {
            ed_key: opt_seq32(self.ed25519_key),
            composite_key: opt_composite(self.composite_key),
            ml_key: opt_seq1952(self.mldsa65_key),
            lineage: lineage_replies(self.lineage@),
            target: opt_vec(self.target),
            log_key: opt_seq32(self.log_key),
            revoked: self.revoked,
        }
    }
}

/// Whether `r` is what verifying `cose` gives when the trust store answers `ans`.
pub open spec fn outcome_matches(r: Result<(Statement, VerificationWarnings)>, cose: Seq<u8>, ans: StoreAnswers) -> bool {
    match spec_verify_statement(cose, ans) {
        Ok(ws) => r matches Ok((s, w)) && s.cose_bytes@ == cose && w.warnings@ == ws,
        Err(k) => r matches Err(e) && e.kind() == k,
    }
}

/// Signature check of `cose_bytes` under `alg` with the keys at hand; only
/// the key of the lookup that `alg` uses is read.
fn signature_decide(
    cose_bytes: &[u8],
    alg: i64,
    ed_key: Option<[u8; 32]>,
    composite_key: Option<CompositePublicKey>,
    ml_key: Option<[u8; 1952]>,
) -> (r: Result<()>)
    ensures
        match spec_signature_check(cose_bytes@, alg, opt_seq32(ed_key), opt_composite(composite_key), opt_seq1952(ml_key)) {
            Ok(()) => r is Ok,
            Err(k) => r matches Err(e) && e.kind() == k,
        },
{
    reveal(spec_signature_check);
    if alg == -8 {
        match ed_key {
            None => Err(crypto_error("unknown key ID")),
            Some(k) => match parse_and_verify_ed25519(cose_bytes, &k) {
                Ok(_) => Ok(()),
                Err(e) => Err(e),
            },
        }
    } else if alg == -39 {
        match composite_key {
            None => Err(crypto_error("unknown key ID")),
            Some(k) => match parse_and_verify_composite(cose_bytes, &k, VerificationMode::Hybrid) {
                Ok(_) => Ok(()),
                Err(e) => Err(e),
            },
        }
    } else if alg == -38 {
        match ml_key {
            None => Err(crypto_error("unknown key ID")),
            Some(k) => match parse_and_verify_mldsa65_only(cose_bytes, &k) {
                Ok(_) => Ok(()),
                Err(e) => Err(e),
            },
        }
    } else {
        Err(unsupported_alg_error(alg))
    }
}

/// The statements a store returns along the lineage chain from `p`, for at
/// most `fuel` links: each parent looked up under the hash `p` names,
/// stopping at the first link that fails.
pub open spec fn lineage_answers<T: TrustStore>(store: T, p: PayloadModel, fuel: nat) -> Seq<Option<Seq<u8>>>
    decreases fuel,
{
    if p.lineage is None || fuel == 0 {
        Seq::empty()
    } else {
        let a = store.statement_for(p.lineage.unwrap());
        match spec_lineage_link(p, a) {
            Err(_) => seq![a],
            Ok(prev) => seq![a] + lineage_answers(store, prev, (fuel - 1) as nat),
        }
    }
}

/// The message of the lineage link that breaks first when walking from `p`
/// over a store's answers (empty where none breaks).
pub open spec fn store_lineage_message<T: TrustStore>(store: T, p: PayloadModel, fuel: nat) -> Seq<char>
    decreases fuel,
{
    if p.lineage is None || fuel == 0 {
        Seq::empty()
    } else {
        let a = store.statement_for(p.lineage.unwrap());
        match spec_lineage_link(p, a) {
            Err(_) => spec_link_message(p, a),
            Ok(prev) => store_lineage_message(store, prev, (fuel - 1) as nat),
        }
    }
}

/// The statement a store returns for the object of a `Revokes` statement,
/// or of a `Recovers` statement whose issuer is its subject; none asked
/// otherwise.
pub open spec fn rules_target<T: TrustStore>(store: T, p: PayloadModel, kid: Seq<u8>) -> Option<Seq<u8>> {
    match p.object {
        None => None,
        Some(obj) => if p.predicate == Predicate::Revokes {
            store.statement_for(obj)
        } else if p.predicate == Predicate::Recovers && recovers_issuer_ok(p, kid) {
            store.statement_for(obj)
        } else {
            None
        },
    }
}

/// The log key a store trusts for the tree head of `a` (asked only for a
/// 32-byte log id and key).
pub open spec fn temporal_log_key<T: TrustStore>(store: T, a: crate::ct::AnchorModel) -> Option<Seq<u8>> {
    if a.sth.log_id.len() == 32 && a.sth.log_pubkey.len() == 32 {
        store.log_key_for(a.sth.log_id, a.sth.log_pubkey)
    } else {
        None
    }
}

/// The log's revocation answer a store gives for the envelope `cose`
/// after the tree head's time (asked only once the anchor's other checks
/// pass).
pub open spec fn temporal_revocation<T: TrustStore>(
    store: T,
    a: crate::ct::AnchorModel,
    p: PayloadModel,
    payload_bytes: Seq<u8>,
    cose: Seq<u8>,
) -> Option<bool> {
    if spec_temporal_pre(a, p, payload_bytes, temporal_log_key(store, a)) is Ok {
        store.revocation_for(spec_blake3(cose), a.sth.timestamp)
    } else {
        None
    }
}

/// The log key a store trusts for the anchor of `cose`, if one is checked.
pub open spec fn anchor_log_key<T: TrustStore>(store: T, cose: Seq<u8>, p: PayloadModel) -> Option<Seq<u8>> {
    match spec_anchor_gate(cose, p) {
        Ok(Some(a)) => temporal_log_key(store, a),
        _ => None,
    }
}

/// The revocation answer a store gives for `cose`, if its anchor is checked.
pub open spec fn anchor_revocation<T: TrustStore>(store: T, cose: Seq<u8>, p: PayloadModel, payload_bytes: Seq<u8>) -> Option<bool> {
    match spec_anchor_gate(cose, p) {
        Ok(Some(a)) => temporal_revocation(store, a, p, payload_bytes, cose),
        _ => None,
    }
}

/// What `store` answers while verifying `cose`: the key for the
/// envelope's `kid` under the lookup its algorithm uses, the statements
/// along the lineage chain, the statement for the object of a `Revokes`
/// or `Recovers` statement, the trusted log key and the log's revocation
/// answer for the anchor.
pub open spec fn store_answers<T: TrustStore>(store: T, cose: Seq<u8>) -> StoreAnswers {
    match spec_check_envelope(cose) {
        Err(_) => StoreAnswers {
            ed_key: None,
            composite_key: None,
            ml_key: None,
            lineage: Seq::empty(),
            target: None,
            log_key: None,
            revoked: None,
        },
        Ok(env) => StoreAnswers {
            ed_key: if env.alg == -8 { store.rotated_key_for(env.kid) } else { None },
            composite_key: if env.alg == -39 { store.composite_key_for(env.kid) } else { None },
            ml_key: if env.alg == -38 { store.mldsa65_key_for(env.kid) } else { None },
            lineage: lineage_answers(store, env.payload, MAX_LINEAGE_DEPTH as nat),
            target: rules_target(store, env.payload, env.kid),
            log_key: anchor_log_key(store, cose, env.payload),
            revoked: anchor_revocation(store, cose, env.payload, env.payload_bytes),
        },
    }
}

fn check_signature<T: TrustStore>(cose_bytes: &[u8], alg: i64, kid: &Vec<u8>, trust_anchors: &T) -> (r: Result<()>)
    ensures
        T::obeys_store_spec() ==> match spec_signature_check(cose_bytes@, alg,
            if alg == -8 { trust_anchors.rotated_key_for(kid@) } else { None },
            if alg == -39 { trust_anchors.composite_key_for(kid@) } else { None },
            if alg == -38 { trust_anchors.mldsa65_key_for(kid@) } else { None }) {
            Ok(()) => r is Ok,
            Err(k) => r matches Err(e) && e.kind() == k,
        },
{
    let (ed, comp, ml) = if alg == -8 {
        (trust_anchors.resolve_rotated_key(kid.as_slice()), None, None)
    } else if alg == -39 {
        (None, trust_anchors.resolve_composite_key(kid.as_slice()), None)
    } else if alg == -38 {
        (None, None, trust_anchors.resolve_mldsa65_key(kid.as_slice()))
    } else {
        (None, None, None)
    };
    signature_decide(cose_bytes, alg, ed, comp, ml)
}

/// One link of the lineage walk over a store's answers.
proof fn lemma_lineage_store_step<T: TrustStore>(store: T, cur: PayloadModel, fuel: nat)
    requires
        fuel > 0,
        cur.lineage is Some,
    ensures
        spec_lineage_from(cur, lineage_answers(store, cur, fuel), fuel)
            == match spec_lineage_link(cur, store.statement_for(cur.lineage.unwrap())) {
                Err(e) => Err(e),
                Ok(prev) => spec_lineage_from(prev, lineage_answers(store, prev, (fuel - 1) as nat), (fuel - 1) as nat),
            },
{
    let a = store.statement_for(cur.lineage.unwrap());
    let ans = lineage_answers(store, cur, fuel);
    assert(ans[0] == a);
    if let Ok(prev) = spec_lineage_link(cur, a) {
        assert(ans.drop_first() =~= lineage_answers(store, prev, (fuel - 1) as nat));
    }
}

fn walk_lineage<T: TrustStore>(start: AxiomPayload, trust_anchors: &T) -> (r: Result<()>)
    ensures
        T::obeys_store_spec() ==> match spec_lineage_from(start@, lineage_answers(*trust_anchors, start@, MAX_LINEAGE_DEPTH as nat),
            MAX_LINEAGE_DEPTH as nat) {
            Ok(()) => r is Ok,
            Err(k) => r matches Err(e) && e.kind() == k,
        },
        T::obeys_store_spec() ==> (r matches Err(Error::BrokenLineage(m))
            ==> m@ == store_lineage_message(*trust_anchors, start@, MAX_LINEAGE_DEPTH as nat)),
{
    let ghost p0 = start@;
    let mut cur = start;
    let mut depth: u64 = 0;
    while depth < MAX_LINEAGE_DEPTH && cur.lineage.is_some()
        invariant
            depth <= MAX_LINEAGE_DEPTH,
            p0 == start@,
            T::obeys_store_spec() ==> store_lineage_message(*trust_anchors, p0, MAX_LINEAGE_DEPTH as nat)
                == store_lineage_message(*trust_anchors, cur@, (MAX_LINEAGE_DEPTH - depth) as nat),
            T::obeys_store_spec() ==> spec_lineage_from(p0, lineage_answers(*trust_anchors, p0, MAX_LINEAGE_DEPTH as nat), MAX_LINEAGE_DEPTH as nat)
                == spec_lineage_from(cur@, lineage_answers(*trust_anchors, cur@, (MAX_LINEAGE_DEPTH - depth) as nat),
                    (MAX_LINEAGE_DEPTH - depth) as nat),
        decreases MAX_LINEAGE_DEPTH - depth,
    {
        let prev_hash = cur.lineage.unwrap();
        proof {
            lemma_lineage_store_step(*trust_anchors, cur@, (MAX_LINEAGE_DEPTH - depth) as nat);
        }
        let fetched = trust_anchors.fetch_statement(&prev_hash);
        match lineage_link(&cur, &prev_hash, fetched) {
            Ok(prev) => {
                cur = prev;
            },
            Err(e) => {
                return Err(e);
            },
        }
        depth = depth + 1;
    }
    if cur.lineage.is_some() {
        return Err(Error::LineageDepthExceeded);
    }
    Ok(())
}

/// The trust store's replies along a lineage chain, as models.
pub open spec fn lineage_replies(v: Seq<Option<Vec<u8>>>) -> Seq<Option<Seq<u8>>> {
    v.map_values(|o: Option<Vec<u8>>| opt_vec(o))
}

/// One step of `spec_lineage_from` over replies: the first reply (none
/// once they run out) decides the link, the rest the remainder.
proof fn lemma_lineage_reply_step(cur: PayloadModel, replies: Seq<Option<Vec<u8>>>, fuel: nat)
    requires
        fuel > 0,
        cur.lineage is Some,
    ensures
        replies.len() == 0 ==> spec_lineage_from(cur, lineage_replies(replies), fuel)
            == Err::<(), ErrorKind>(ErrorKind::BrokenLineage)
            && spec_lineage_link(cur, None) == Err::<PayloadModel, ErrorKind>(ErrorKind::BrokenLineage),
        replies.len() > 0 ==> spec_lineage_from(cur, lineage_replies(replies), fuel) == match spec_lineage_link(cur, opt_vec(replies[0])) {
            Err(e) => Err(e),
            Ok(prev) => spec_lineage_from(prev, lineage_replies(replies.remove(0)), (fuel - 1) as nat),
        },
{
    reveal(spec_lineage_link);
    if replies.len() > 0 {
        assert(lineage_replies(replies.remove(0)) =~= lineage_replies(replies).drop_first());
    }
}

/// Walks the lineage chain from `start`, `replies` being the statements
/// returned for the successive parent lookups.
fn walk_lineage_replies(start: AxiomPayload, replies: Vec<Option<Vec<u8>>>) -> (r: Result<()>)
    ensures
        match spec_lineage_from(start@, lineage_replies(replies@), MAX_LINEAGE_DEPTH as nat) {
            Ok(()) => r is Ok,
            Err(k) => r matches Err(e) && e.kind() == k,
        },
{
    let ghost p0 = start@;
    let ghost all = lineage_replies(replies@);
    let mut rest = replies;
    let mut cur = start;
    let mut depth: u64 = 0;
    while depth < MAX_LINEAGE_DEPTH && cur.lineage.is_some()
        invariant
            depth <= MAX_LINEAGE_DEPTH,
            p0 == start@,
            all == lineage_replies(replies@),
            spec_lineage_from(p0, all, MAX_LINEAGE_DEPTH as nat)
                == spec_lineage_from(cur@, lineage_replies(rest@), (MAX_LINEAGE_DEPTH - depth) as nat),
        decreases MAX_LINEAGE_DEPTH - depth,
    {
        let prev_hash = cur.lineage.unwrap();
        let ghost before = rest@;
        let ghost fuel = (MAX_LINEAGE_DEPTH - depth) as nat;
        let ghost cm = cur@;
        let fetched = if rest.len() == 0 { None } else { rest.remove(0) };
        proof {
            lemma_lineage_reply_step(cm, before, fuel);
        }
        match lineage_link(&cur, &prev_hash, fetched) {
            Ok(prev) => {
                cur = prev;
            },
            Err(e) => {
                proof {
                    if before.len() > 0 {
                        assert(opt_vec(fetched) == opt_vec(before[0]));
                    }
                    assert(spec_lineage_link(cm, opt_vec(fetched)) == Err::<PayloadModel, ErrorKind>(e.kind()));
                }
                return Err(e);
            },
        }
        depth = depth + 1;
    }
    if cur.lineage.is_some() {
        return Err(Error::LineageDepthExceeded);
    }
    Ok(())
}

/// Revocation and recovery rules of `payload` issued under `kid`, with
/// the statement the trust store returned for its object.
fn rules_decide(payload: &AxiomPayload, kid: &Vec<u8>, target: Option<Vec<u8>>) -> (r: Result<()>)
    ensures
        match spec_revokes_check(payload@, kid@, opt_vec(target)) {
            Err(k) => r matches Err(e) && e.kind() == k,
            Ok(()) => match spec_recovers_check(payload@, kid@, opt_vec(target)) {
                Err(k) => r matches Err(e) && e.kind() == k,
                Ok(()) => r is Ok,
            },
        },
{
    reveal(spec_recovers_check);
    proof {
        reveal(spec_revokes_check);
    }
    if payload.predicate == Predicate::Revokes {
        check_revokes(payload, kid, target)
    } else if payload.predicate == Predicate::Recovers && payload.object.is_some() {
        let issuer_hash = crate::hash::blake3(kid.as_slice());
        if !crate::cbor_payload::bytes_eq(issuer_hash.as_slice(), payload.subject.as_slice()) {
            return Err(Error::RecoveryPolicyViolation(
                "RECOVERS subject (guardian hash) does not match issuer key hash".to_owned()));
        }
        check_recovers_target(payload, target)
    } else {
        Ok(())
    }
}

fn check_rules<T: TrustStore>(payload: &AxiomPayload, kid: &Vec<u8>, trust_anchors: &T) -> (r: Result<()>)
    ensures
        T::obeys_store_spec() ==> match spec_revokes_check(payload@, kid@, rules_target(*trust_anchors, payload@, kid@)) {
            Err(k) => r matches Err(e) && e.kind() == k,
            Ok(()) => match spec_recovers_check(payload@, kid@, rules_target(*trust_anchors, payload@, kid@)) {
                Err(k) => r matches Err(e) && e.kind() == k,
                Ok(()) => r is Ok,
            },
        },
{
    // The store is asked for the object's statement only where a rule reads it.
    let target: Option<Vec<u8>> = match &payload.object {
        None => None,
        Some(obj) => if payload.predicate == Predicate::Revokes {
            trust_anchors.fetch_statement(obj)
        } else if payload.predicate == Predicate::Recovers
            && crate::cbor_payload::bytes_eq(crate::hash::blake3(kid.as_slice()).as_slice(), payload.subject.as_slice()) {
            trust_anchors.fetch_statement(obj)
        } else {
            None
        },
    };
    rules_decide(payload, kid, target)
}

/// Where verifying `cose` against `store` fails at the lineage walk with a
/// broken link: the envelope, signature and object checks pass and the
/// walk over the store's answers breaks.
pub open spec fn fails_at_broken_link<T: TrustStore>(store: T, cose: Seq<u8>) -> bool {
    spec_check_envelope(cose) matches Ok(env)
        && spec_verify_statement(cose, store_answers(store, cose)) == Err::<Seq<Warning>, ErrorKind>(ErrorKind::BrokenLineage)
        && spec_signature_check(cose, env.alg, store_answers(store, cose).ed_key, store_answers(store, cose).composite_key,
            store_answers(store, cose).ml_key) is Ok
        && spec_object_check(env.payload) is Ok
        && spec_lineage_from(env.payload, store_answers(store, cose).lineage, MAX_LINEAGE_DEPTH as nat)
            == Err::<(), ErrorKind>(ErrorKind::BrokenLineage)
}

/// The message of the broken link where verification fails there.
pub open spec fn broken_link_message<T: TrustStore>(store: T, cose: Seq<u8>) -> Seq<char> {
    match spec_check_envelope(cose) {
        Ok(env) => store_lineage_message(store, env.payload, MAX_LINEAGE_DEPTH as nat),
        Err(_) => Seq::empty(),
    }
}

/// Where verifying `cose` with the answers `ans` gets past the envelope,
/// signature, object, lineage and rule checks to the anchor checks.
pub open spec fn reaches_anchor_check(cose: Seq<u8>, ans: StoreAnswers) -> bool {
    spec_check_envelope(cose) matches Ok(env)
        && spec_signature_check(cose, env.alg, ans.ed_key, ans.composite_key, ans.ml_key) is Ok
        && spec_object_check(env.payload) is Ok
        && spec_lineage_from(env.payload, ans.lineage, MAX_LINEAGE_DEPTH as nat) is Ok
        && spec_revokes_check(env.payload, env.kid, ans.target) is Ok
        && spec_recovers_check(env.payload, env.kid, ans.target) is Ok
}

/// The message of the error of the anchor checks of `cose` with the
/// answers `ans`.
pub open spec fn anchor_stage_message(cose: Seq<u8>, ans: StoreAnswers) -> Seq<char> {
    match spec_check_envelope(cose) {
        Ok(env) => spec_anchor_message(cose, env.payload, env.payload_bytes, ans.log_key),
        Err(_) => Seq::empty(),
    }
}

fn verify_with_store<T: TrustStore>(cose_bytes: &[u8], trust_anchors: &T)
    -> (r: Result<(Statement, VerificationWarnings)>)
    ensures
        T::obeys_store_spec() ==> outcome_matches(r, cose_bytes@, store_answers(*trust_anchors, cose_bytes@)),
        T::obeys_store_spec() && fails_at_broken_link(*trust_anchors, cose_bytes@) ==> (r matches Err(Error::BrokenLineage(m))
            && m@ == broken_link_message(*trust_anchors, cose_bytes@)),
        T::obeys_store_spec() && reaches_anchor_check(cose_bytes@, store_answers(*trust_anchors, cose_bytes@))
            ==> (r matches Err(e) ==> error_message(e) == anchor_stage_message(cose_bytes@,
                store_answers(*trust_anchors, cose_bytes@))),
        spec_check_envelope(cose_bytes@) matches Err(k) ==> (r matches Err(e) && e.kind() == k),
        r is Ok ==> spec_check_envelope(cose_bytes@) is Ok,
{
    let env = check_envelope(cose_bytes)?;
    check_signature(cose_bytes, env.alg, &env.kid, trust_anchors)?;
    check_object(&env.payload)?;
    let start = AxiomPayload::decode(env.payload_bytes.as_slice())?;
    walk_lineage(start, trust_anchors)?;
    check_rules(&env.payload, &env.kid, trust_anchors)?;
    let warnings = check_anchor(cose_bytes, &env.payload, &env.payload_bytes, trust_anchors)?;
    Ok((env.statement, warnings))
}

/// Verifies a statement against the trust store's replies given as
/// values: the result is exactly `spec_verify_statement` on them.
pub fn verify_statement_with_replies(cose_bytes: &[u8], replies: StoreReplies)
    -> (r: Result<(Statement, VerificationWarnings)>)
    ensures
        outcome_matches(r, cose_bytes@, replies@),
        reaches_anchor_check(cose_bytes@, replies@)
            ==> (r matches Err(e) ==> error_message(e) == anchor_stage_message(cose_bytes@, replies@)),
{
    let ghost ans = replies@;
    let StoreReplies { ed25519_key, composite_key, mldsa65_key, lineage, target, log_key, revoked } = replies;
    let env = check_envelope(cose_bytes)?;
    signature_decide(cose_bytes, env.alg, ed25519_key, composite_key, mldsa65_key)?;
    check_object(&env.payload)?;
    let start = AxiomPayload::decode(env.payload_bytes.as_slice())?;
    walk_lineage_replies(start, lineage)?;
    rules_decide(&env.payload, &env.kid, target)?;
    let warnings = anchor_with(cose_bytes, &env.payload, &env.payload_bytes, log_key, revoked)?;
    Ok((env.statement, warnings))
}

/// Verifies a statement and reports the warnings raised. The result is
/// what `spec_verify_statement` gives for this store's answers
/// (`store_answers`); success needs the envelope checks to pass.
pub fn verify_statement_with_warnings<T: TrustStore>(cose_bytes: &[u8], trust_anchors: &T)
    -> (r: Result<(Statement, VerificationWarnings)>)
    ensures
        T::obeys_store_spec() ==> outcome_matches(r, cose_bytes@, store_answers(*trust_anchors, cose_bytes@)),
        T::obeys_store_spec() && fails_at_broken_link(*trust_anchors, cose_bytes@) ==> (r matches Err(Error::BrokenLineage(m))
            && m@ == broken_link_message(*trust_anchors, cose_bytes@)),
        T::obeys_store_spec() && reaches_anchor_check(cose_bytes@, store_answers(*trust_anchors, cose_bytes@))
            ==> (r matches Err(e) ==> error_message(e) == anchor_stage_message(cose_bytes@,
                store_answers(*trust_anchors, cose_bytes@))),
        spec_check_envelope(cose_bytes@) matches Err(k) ==> (r matches Err(e) && e.kind() == k),
        r is Ok ==> spec_check_envelope(cose_bytes@) is Ok,
{
    verify_with_store(cose_bytes, trust_anchors)
}

/// Verifies a statement (see `verify_statement_with_warnings`) and drops
/// the warnings.
pub fn verify_statement<T: TrustStore>(cose_bytes: &[u8], trust_anchors: &T) -> (r: Result<Statement>)
    ensures
        T::obeys_store_spec() ==> match spec_verify_statement(cose_bytes@, store_answers(*trust_anchors, cose_bytes@)) {
            Ok(_) => r matches Ok(s) && s.cose_bytes@ == cose_bytes@,
            Err(k) => r matches Err(e) && e.kind() == k,
        },
        T::obeys_store_spec() && fails_at_broken_link(*trust_anchors, cose_bytes@) ==> (r matches Err(Error::BrokenLineage(m))
            && m@ == broken_link_message(*trust_anchors, cose_bytes@)),
        T::obeys_store_spec() && reaches_anchor_check(cose_bytes@, store_answers(*trust_anchors, cose_bytes@))
            ==> (r matches Err(e) ==> error_message(e) == anchor_stage_message(cose_bytes@,
                store_answers(*trust_anchors, cose_bytes@))),
        spec_check_envelope(cose_bytes@) matches Err(k) ==> (r matches Err(e) && e.kind() == k),
        r is Ok ==> spec_check_envelope(cose_bytes@) is Ok,
{
    match verify_with_store(cose_bytes, trust_anchors) {
        Ok((s, _)) => Ok(s),
        Err(e) => Err(e),
    }
}

// ---------------------------------------------------------------------
// Key rotation

/// The trust store's answers during one step of following a key
/// rotation: the key registered for the current `kid`, the statement
/// stored under the `kid`'s hash, and the key registered for the `kid`
/// that statement supersedes.
pub struct RotationAnswer {
    pub key: Option<Seq<u8>>,
    pub fetched: Option<Seq<u8>>,
    pub prev_key: Option<Seq<u8>>,
}

/// One step of following a key rotation from `kid`: the key found, or
/// else the superseded `kid` to continue from, or neither.
#[verifier::opaque]
pub open spec fn spec_rotation_step(kid: Seq<u8>, a: RotationAnswer) -> (Option<Seq<u8>>, Option<Seq<u8>>) {
    match a.key {
        Some(pk) => (Some(pk), None),
        None => match a.fetched {
            None => (None, None),
            Some(b) => match crate::statement::spec_statement_payload(b) {
                Err(_) => (None, None),
                Ok(p) => if p.predicate != Predicate::Supersedes || p.object is None || a.prev_key is None
                    || spec_verify_ed25519(b, a.prev_key.unwrap()) is Err {
                    (None, None)
                } else {
                    (None, Some(p.object.unwrap()))
                },
            },
        },
    }
}

/// Following key rotations from `kid`, for at most `fuel` steps: the key
/// registered for it, or else, through a `Supersedes` statement stored
/// under the `kid`'s hash and signed under the key of the `kid` it names
/// as object, the key found from that `kid`.
pub open spec fn spec_rotation_from(kid: Seq<u8>, ans: Seq<RotationAnswer>, fuel: nat) -> Option<Seq<u8>>
    decreases fuel,
{
    if fuel == 0 || ans.len() == 0 {
        None
    } else {
        match spec_rotation_step(kid, ans[0]) {
            (Some(pk), _) => Some(pk),
            (None, Some(next)) => spec_rotation_from(next, ans.drop_first(), (fuel - 1) as nat),
            (None, None) => None,
        }
    }
}

/// The trust store's replies during one step of following a key
/// rotation, as plain values (see `RotationAnswer`).
pub struct RotationReply {
    pub key: Option<[u8; 32]>,
    pub fetched: Option<Vec<u8>>,
    pub prev_key: Option<[u8; 32]>,
}

impl View for RotationReply {
    type V = RotationAnswer;

    open spec fn view(&self) -> RotationAnswer {
        RotationAnswer { key: opt_seq32(self.key), fetched: opt_vec(self.fetched), prev_key: opt_seq32(self.prev_key) }
    }
}

/// The `kid` that the `Supersedes` statement `stmt_bytes` names as object.
fn supersedes_target(stmt_bytes: &[u8]) -> (r: Option<[u8; 32]>)
    ensures
        match crate::statement::spec_statement_payload(stmt_bytes@) {
            Ok(p) => if p.predicate == Predicate::Supersedes && p.object is Some {
                r matches Some(o) && o@ == p.object.unwrap()
            } else {
                r is None
            },
            Err(_) => r is None,
        },
{
    let stmt = match Statement::from_bytes(stmt_bytes) {
        Ok(s) => s,
        Err(_) => { return None; },
    };
    let payload = match stmt.decode_payload() {
        Ok(p) => p,
        Err(_) => { return None; },
    };
    if payload.predicate != Predicate::Supersedes {
        return None;
    }
    payload.object
}

/// One step of following a key rotation from `current` with the replies
/// at hand: (the superseded `kid` to continue from, the key found).
fn rotation_decide(current: &[u8; 32], reply: RotationReply) -> (r: (Option<[u8; 32]>, Option<[u8; 32]>))
    ensures
        (opt_seq32(r.1), opt_seq32(r.0)) == spec_rotation_step(current@, reply@),
{
    reveal(spec_rotation_step);
    if let Some(k) = reply.key {
        return (None, Some(k));
    }
    let stmt_bytes = match reply.fetched {
        Some(b) => b,
        None => { return (None, None); },
    };
    let prev_kid = match supersedes_target(stmt_bytes.as_slice()) {
        Some(o) => o,
        None => { return (None, None); },
    };
    let ppk = match reply.prev_key {
        Some(k) => k,
        None => { return (None, None); },
    };
    if parse_and_verify_ed25519(stmt_bytes.as_slice(), &ppk).is_err() {
        return (None, None);
    }
    (Some(prev_kid), None)
}

/// The `kid` a `Supersedes` statement names as object.
pub open spec fn superseded_kid(stmt: Seq<u8>) -> Option<Seq<u8>> {
    match crate::statement::spec_statement_payload(stmt) {
        Ok(p) => if p.predicate == Predicate::Supersedes && p.object is Some { Some(p.object.unwrap()) } else { None },
        Err(_) => None,
    }
}

/// What `store` answers in one rotation step from `kid`: its key for
/// `kid`; where there is none, the statement under the hash of `kid`; and
/// for a `Supersedes` statement, the key of the `kid` it names.
pub open spec fn rotation_answer_at<T: TrustStore>(store: T, kid: Seq<u8>) -> RotationAnswer {
    let key = store.key_for(kid);
    let fetched = if key is None { store.statement_for(spec_blake3(kid)) } else { None };
    let prev_key = match fetched {
        Some(b) => match superseded_kid(b) {
            Some(o) => store.key_for(o),
            None => None,
        },
        None => None,
    };
    RotationAnswer { key, fetched, prev_key }
}

/// What `store` answers while following rotations from `kid` for at most
/// `fuel` steps.
pub open spec fn rotation_answers<T: TrustStore>(store: T, kid: Seq<u8>, fuel: nat) -> Seq<RotationAnswer>
    decreases fuel,
{
    if fuel == 0 {
        Seq::empty()
    } else {
        let a = rotation_answer_at(store, kid);
        match spec_rotation_step(kid, a) {
            (None, Some(nx)) => seq![a] + rotation_answers(store, nx, (fuel - 1) as nat),
            _ => seq![a],
        }
    }
}

proof fn lemma_rotation_store_step<T: TrustStore>(store: T, kid: Seq<u8>, fuel: nat)
    requires
        fuel > 0,
    ensures
        spec_rotation_from(kid, rotation_answers(store, kid, fuel), fuel)
            == match spec_rotation_step(kid, rotation_answer_at(store, kid)) {
                (Some(pk), _) => Some(pk),
                (None, Some(nx)) => spec_rotation_from(nx, rotation_answers(store, nx, (fuel - 1) as nat), (fuel - 1) as nat),
                (None, None) => None,
            },
{
    let a = rotation_answer_at(store, kid);
    let ans = rotation_answers(store, kid, fuel);
    assert(ans[0] == a);
    if let (None, Some(nx)) = spec_rotation_step(kid, a) {
        assert(ans.drop_first() =~= rotation_answers(store, nx, (fuel - 1) as nat));
    }
}

fn rotation_step<T: TrustStore>(store: &T, current: &[u8; 32]) -> (r: (Option<[u8; 32]>, Option<[u8; 32]>))
    ensures
        T::obeys_store_spec() ==> (opt_seq32(r.1), opt_seq32(r.0)) == spec_rotation_step(current@, rotation_answer_at(*store, current@)),
{
    let pk = store.resolve_key(current.as_slice());
    let reply = if pk.is_some() {
        RotationReply { key: pk, fetched: None, prev_key: None }
    } else {
        let kid_hash = crate::hash::blake3(current.as_slice());
        let fetched = store.fetch_statement(&kid_hash);
        // The superseded key is looked up only for a `Supersedes` statement.
        let prev_key = match &fetched {
            Some(b) => match supersedes_target(b.as_slice()) {
                Some(prev_kid) => store.resolve_key(prev_kid.as_slice()),
                None => None,
            },
            None => None,
        };
        RotationReply { key: None, fetched, prev_key }
    };
    assert(T::obeys_store_spec() ==> reply@ == rotation_answer_at(*store, current@));
    rotation_decide(current, reply)
}

/// The trust store's replies along a key rotation chain, as models.
pub open spec fn rotation_replies(v: Seq<RotationReply>) -> Seq<RotationAnswer> {
    v.map_values(|x: RotationReply| x@)
}

proof fn lemma_rotation_reply_step(kid: Seq<u8>, replies: Seq<RotationReply>, fuel: nat)
    requires
        fuel > 0,
        replies.len() > 0,
    ensures
        spec_rotation_from(kid, rotation_replies(replies), fuel) == match spec_rotation_step(kid, replies[0]@) {
            (Some(pk), _) => Some(pk),
            (None, Some(nx)) => spec_rotation_from(nx, rotation_replies(replies.remove(0)), (fuel - 1) as nat),
            (None, None) => None,
        },
{
    assert(rotation_replies(replies.remove(0)) =~= rotation_replies(replies).drop_first());
}

/// Follows key rotations from `kid` with the trust store's replies given
/// as values, one per step: the result is exactly `spec_rotation_from` on
/// them. Only 32-byte key identifiers are looked up.
pub fn resolve_rotated_key_with_replies(kid: &[u8], replies: Vec<RotationReply>) -> (r: Option<[u8; 32]>)
    ensures
        kid@.len() != 32 ==> r is None,
        kid@.len() == 32 ==> opt_seq32(r) == spec_rotation_from(kid@, rotation_replies(replies@), MAX_ROTATION_DEPTH as nat),
{
    if kid.len() != 32 {
        return None;
    }
    let ghost all = rotation_replies(replies@);
    let mut current: [u8; 32] = crate::cose::to_array(kid);
    let mut rest = replies;
    let mut i: u64 = 0;
    while i < MAX_ROTATION_DEPTH
        invariant
            i <= MAX_ROTATION_DEPTH,
            kid@.len() == 32,
            all == rotation_replies(replies@),
            spec_rotation_from(kid@, all, MAX_ROTATION_DEPTH as nat)
                == spec_rotation_from(current@, rotation_replies(rest@), (MAX_ROTATION_DEPTH - i) as nat),
        decreases MAX_ROTATION_DEPTH - i,
    {
        if rest.len() == 0 {
            return None;
        }
        let ghost before = rest@;
        let ghost cur = current@;
        proof {
            lemma_rotation_reply_step(cur, before, (MAX_ROTATION_DEPTH - i) as nat);
        }
        let reply = rest.remove(0);
        let (next, found) = rotation_decide(&current, reply);
        if let Some(k) = found {
            return Some(k);
        }
        match next {
            Some(prev) => {
                current = prev;
            },
            None => {
                return None;
            },
        }
        i = i + 1;
    }
    None
}

/// Resolves the Ed25519 key for `kid` by following key rotations (at most
/// `MAX_ROTATION_DEPTH` steps): the key the store registers for it, or
/// the key of the `kid` an earlier key's `Supersedes` statement names.
/// Only 32-byte key identifiers are looked up.
pub fn resolve_rotated_key_default<T: TrustStore>(store: &T, kid: &[u8]) -> (r: Option<[u8; 32]>)
    ensures
        kid@.len() != 32 ==> r is None,
        T::obeys_store_spec() && kid@.len() == 32 ==> opt_seq32(r)
            == spec_rotation_from(kid@, rotation_answers(*store, kid@, MAX_ROTATION_DEPTH as nat), MAX_ROTATION_DEPTH as nat),
{
    if kid.len() != 32 {
        return None;
    }
    let mut current: [u8; 32] = crate::cose::to_array(kid);
    let ghost k0 = kid@;
    let mut i: u64 = 0;
    while i < MAX_ROTATION_DEPTH
        invariant
            i <= MAX_ROTATION_DEPTH,
            k0 == kid@,
            kid@.len() == 32,
            T::obeys_store_spec() ==> spec_rotation_from(k0, rotation_answers(*store, k0, MAX_ROTATION_DEPTH as nat), MAX_ROTATION_DEPTH as nat)
                == spec_rotation_from(current@, rotation_answers(*store, current@, (MAX_ROTATION_DEPTH - i) as nat),
                    (MAX_ROTATION_DEPTH - i) as nat),
        decreases MAX_ROTATION_DEPTH - i,
    {
        proof {
            lemma_rotation_store_step(*store, current@, (MAX_ROTATION_DEPTH - i) as nat);
        }
        let (next, found) = rotation_step(store, &current);
        if let Some(k) = found {
            return Some(k);
        }
        match next {
            Some(prev) => {
                current = prev;
            },
            None => {
                return None;
            },
        }
        i = i + 1;
    }
    None
}

// ---------------------------------------------------------------------
// Statements the library signs

proof fn lemma_protected_layout(alg: i64, kid: Seq<u8>)
    ensures
        ({
            let prot = crate::cose::spec_protected_header(alg, kid);
            let a = crate::cose::spec_encode_alg(alg);
            let b = crate::cbor::spec_encode_bstr(kid);
            let o3: int = 2int + a.len();
            &&& prot.len() == o3 + 1 + b.len()
            &&& prot.subrange(0, 1) == crate::cbor::spec_encode_head(crate::cbor::MAJOR_MAP, 2)
            &&& prot.subrange(1, 2) == crate::cbor::spec_encode_head(crate::cbor::MAJOR_UINT, 1)
            &&& prot.subrange(2, o3) == a
            &&& prot.subrange(o3, o3 + 1) == crate::cbor::spec_encode_head(crate::cbor::MAJOR_UINT, 4)
            &&& prot.subrange(o3 + 1, prot.len() as int) == b
        }),
{
    let prot = crate::cose::spec_protected_header(alg, kid);
    let h = crate::cbor::spec_encode_head(crate::cbor::MAJOR_MAP, 2);
    let k1 = crate::cbor::spec_encode_head(crate::cbor::MAJOR_UINT, 1);
    let a = crate::cose::spec_encode_alg(alg);
    let k4 = crate::cbor::spec_encode_head(crate::cbor::MAJOR_UINT, 4);
    let b = crate::cbor::spec_encode_bstr(kid);
    assert(h =~= seq![0xa2u8]);
    assert(k1 =~= seq![0x01u8]);
    assert(k4 =~= seq![0x04u8]);
    assert(prot =~= h + k1 + a + k4 + b);
    assert(prot.subrange(0, prot.len() as int) =~= prot);
    crate::cbor::lemma_split(prot, 0, h + k1 + a + k4, b);
    crate::cbor::lemma_split(prot, 0, h + k1 + a, k4);
    crate::cbor::lemma_split(prot, 0, h + k1, a);
    crate::cbor::lemma_split(prot, 0, h, k1);
}

/// The protected header the library writes passes the canonical-form
/// check, and `alg` and `kid` read back from it.
pub proof fn lemma_protected_header_reads_back(alg: i64, kid: Seq<u8>)
    requires
        alg == -8 || alg == -38 || alg == -39,
        kid.len() <= crate::cbor::MAX_BSTR_LENGTH,
    ensures
        spec_check_protected(crate::cose::spec_protected_header(alg, kid)) == Ok::<(), ErrorKind>(()),
        spec_alg_of(crate::cose::spec_protected_header(alg, kid)) == Ok::<i64, ErrorKind>(alg),
        spec_kid_of(crate::cose::spec_protected_header(alg, kid)) == Ok::<Seq<u8>, ErrorKind>(kid),
{
    let prot = crate::cose::spec_protected_header(alg, kid);
    let a = crate::cose::spec_encode_alg(alg);
    let b = crate::cbor::spec_encode_bstr(kid);
    let v: u64 = (-1 - alg) as u64;
    lemma_protected_layout(alg, kid);
    crate::cbor::lemma_encode_head_len(crate::cbor::MAJOR_NINT, v);
    crate::cbor::lemma_encode_head_len(crate::cbor::MAJOR_BSTR, kid.len() as u64);
    let o3: int = 2int + a.len();
    let o4: int = o3 + 1;
    crate::cbor::lemma_head_roundtrip(prot, 0, crate::cbor::MAJOR_MAP, 2);
    crate::cbor::lemma_head_roundtrip(prot, 1, crate::cbor::MAJOR_UINT, 1);
    crate::cbor::lemma_head_roundtrip(prot, 2, crate::cbor::MAJOR_NINT, v);
    crate::cbor::lemma_head_roundtrip(prot, o3, crate::cbor::MAJOR_UINT, 4);
    crate::cbor::lemma_bstr_roundtrip(prot, o4, kid, 2);
    crate::cbor::lemma_skip_int_head(prot, 2, crate::cbor::MAJOR_NINT, v);
    assert(prot[2] == a[0]) by {
        assert(prot.subrange(2, o3)[0] == prot[2]);
    }
    assert(prot[2] / 32 == 1);
    assert(spec_negative_value(v) == alg);
    assert(spec_protected_entries(prot, o4 + b.len(), 0, 4) == Ok::<int, ErrorKind>(prot.len() as int));
    assert(spec_protected_entries(prot, o3, 1, 1) == Ok::<int, ErrorKind>(prot.len() as int));
    assert(crate::cose::spec_find_kid(prot, o3, 1) == Ok::<Seq<u8>, ErrorKind>(kid));
}

} // verus!
