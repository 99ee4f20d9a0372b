//! Signed statements: a payload in a COSE_Sign1 envelope, optionally
//! carrying a temporal anchor in its unprotected header.
use vstd::prelude::*;
use crate::cbor::{MAJOR_BSTR, MAJOR_MAP, MAJOR_TSTR, MAX_BSTR_LENGTH, append_bytes, encode_uint_head, spec_encode_bstr,
    spec_encode_head};
use crate::cbor_payload::{
    AxiomPayload, PayloadModel, normalize_payload, payload_encodable, spec_decode_payload, spec_encode_payload,
};
use crate::cose::{
    empty_map, extract_payload, header_ok, sign_composite_with_unprotected, sign_ed25519_with_unprotected,
    spec_parse_cose, spec_sign_composite_with, spec_sign_ed25519_with,
};
use crate::crypto::spec_blake3;
use crate::ct::{TemporalAnchor, proof_key, proof_key_bytes, spec_proof_cbor, spec_sth_cbor, sth_key, sth_key_bytes};
use crate::ct::{
    AnchorModel, ProofModel, SthModel, law_proof_cbor_roundtrip, ok_model, spec_proof_from_cbor, spec_sth_from_cbor, law_sth_cbor_roundtrip, proof_encodable, spec_anchor_of_header,
    spec_anchor_scan, spec_anchor_step, sth_encodable, sth_read_back,
};
use crate::cbor::{lemma_bstr_roundtrip, lemma_head_roundtrip, lemma_skip_string, lemma_split, spec_decode_string, spec_skip_n};
use crate::cose::spec_unprotected_end;
use crate::error::{Error, ErrorKind, Result};
use crate::hash::blake3;
use crate::predicate::Predicate;

verus! {

/// A signed statement: the bytes of its COSE_Sign1 envelope.
#[derive(Debug, Clone, PartialEq, Eq)]
pub struct Statement {
    /// The envelope bytes.
    pub cose_bytes: Vec<u8>,
}

/// The payload of a statement's envelope, decoded.
pub open spec fn spec_statement_payload(cose: Seq<u8>) -> core::result::Result<PayloadModel, ErrorKind> {
    match spec_parse_cose(cose) {
        Err(e) => Err(e),
        Ok(p) => spec_decode_payload(p.payload),
    }
}

/// The message of the error that decoding the payload of `cose` gives.
pub closed spec fn statement_payload_error_text(cose: Seq<u8>) -> Seq<char> {
    match spec_parse_cose(cose) {
        Err(_) => crate::cose::cose_error_text(cose),
        Ok(p) => crate::cbor_payload::payload_error_text(p.payload),
    }
}

/// Payloads a statement can carry and give back: encodable, and encoded
/// within the byte-string limit of the envelope.
pub open spec fn payload_signable(p: PayloadModel) -> bool {
    payload_encodable(p) && spec_encode_payload(p).len() <= MAX_BSTR_LENGTH
}

/// Unprotected header carrying a temporal anchor: a map from the text
/// keys `"log_inclusion_proof"` and `"log_sth"` to the byte strings of
/// the proof and tree head.
pub open spec fn spec_anchor_header(a: crate::ct::AnchorModel) -> Seq<u8> {
    spec_encode_head(MAJOR_MAP, 2)
        + spec_encode_head(MAJOR_TSTR, 19) + proof_key() + spec_encode_bstr(spec_proof_cbor(a.proof))
        + spec_encode_head(MAJOR_TSTR, 7) + sth_key() + spec_encode_bstr(spec_sth_cbor(a.sth))
}

/// Builds the unprotected header that carries `anchor`.
pub fn build_anchor_unprotected_header(anchor: &TemporalAnchor) -> (r: Vec<u8>)
    ensures
        r@ == spec_anchor_header(anchor@),
{
    let proof_bytes = anchor.inclusion_proof.to_cbor();
    let sth_bytes = anchor.signed_tree_head.to_cbor();
    let pk = proof_key_bytes();
    let sk = sth_key_bytes();
    let mut buf: Vec<u8> = Vec::new();
    encode_uint_head(&mut buf, MAJOR_MAP, 2);
    encode_uint_head(&mut buf, MAJOR_TSTR, 19);
    append_bytes(&mut buf, pk.as_slice());
    crate::cbor::encode_bstr(&mut buf, proof_bytes.as_slice());
    encode_uint_head(&mut buf, MAJOR_TSTR, 7);
    append_bytes(&mut buf, sk.as_slice());
    crate::cbor::encode_bstr(&mut buf, sth_bytes.as_slice());
    assert(buf@ =~= spec_anchor_header(anchor@));
    buf
}

/// Anchors an unprotected header can carry and give back: a proof and a
/// tree head whose CBOR forms read back, in a header within the
/// byte-string limit.
pub open spec fn anchor_encodable(a: AnchorModel) -> bool {
    &&& proof_encodable(a.proof)
    &&& sth_encodable(a.sth)
    &&& spec_anchor_header(a).len() <= MAX_BSTR_LENGTH
}

/// An anchor as it reads back from the header it was written to.
pub open spec fn anchor_read_back(a: AnchorModel) -> AnchorModel {
    AnchorModel { proof: a.proof, sth: sth_read_back(a.sth) }
}

proof fn lemma_anchor_header_split(a: AnchorModel, data: Seq<u8>, off: int)
    requires
        0 <= off,
        off + spec_anchor_header(a).len() <= data.len(),
        data.subrange(off, off + spec_anchor_header(a).len()) == spec_anchor_header(a),
    ensures
        ({
            let t1 = spec_encode_head(MAJOR_TSTR, 19) + proof_key();
            let b1 = spec_encode_bstr(spec_proof_cbor(a.proof));
            let t2 = spec_encode_head(MAJOR_TSTR, 7) + sth_key();
            let b2 = spec_encode_bstr(spec_sth_cbor(a.sth));
            let o1 = off + 1;
            let o2 = o1 + t1.len();
            let o3 = o2 + b1.len();
            let o4 = o3 + t2.len();
            &&& spec_anchor_header(a).len() == 1 + t1.len() + b1.len() + t2.len() + b2.len()
            &&& data[off] == 0xa2u8
            &&& data.subrange(o1, o2) == t1
            &&& data.subrange(o2, o3) == b1
            &&& data.subrange(o3, o4) == t2
            &&& data.subrange(o4, o4 + b2.len()) == b2
        }),
{
    let h = spec_encode_head(MAJOR_MAP, 2);
    let t1 = spec_encode_head(MAJOR_TSTR, 19) + proof_key();
    let b1 = spec_encode_bstr(spec_proof_cbor(a.proof));
    let t2 = spec_encode_head(MAJOR_TSTR, 7) + sth_key();
    let b2 = spec_encode_bstr(spec_sth_cbor(a.sth));
    assert(spec_anchor_header(a) =~= h + t1 + b1 + t2 + b2);
    lemma_split(data, off, h + t1 + b1 + t2, b2);
    lemma_split(data, off, h + t1 + b1, t2);
    lemma_split(data, off, h + t1, b1);
    lemma_split(data, off, h, t1);
    assert(data[off] == data.subrange(off, off + 1)[0]);
}

/// An anchor header is a well-formed unprotected header.
pub proof fn lemma_anchor_header_ok(a: AnchorModel)
    requires
        anchor_encodable(a),
    ensures
        header_ok(spec_anchor_header(a)),
{
    let u = spec_anchor_header(a);
    assert forall|data: Seq<u8>, off: int|
        0 <= off && off + u.len() <= data.len() && data.len() <= usize::MAX && data.subrange(off, off + u.len()) == u
            implies #[trigger] spec_unprotected_end(data, off) == Ok::<int, ErrorKind>(off + u.len()) by {
        lemma_anchor_header_split(a, data, off);
        let pc = spec_proof_cbor(a.proof);
        let sc = spec_sth_cbor(a.sth);
        let t1 = spec_encode_head(MAJOR_TSTR, 19) + proof_key();
        let b1 = spec_encode_bstr(pc);
        let t2 = spec_encode_head(MAJOR_TSTR, 7) + sth_key();
        let b2 = spec_encode_bstr(sc);
        let o1 = off + 1;
        let o2 = o1 + t1.len();
        let o3 = o2 + b1.len();
        let o4 = o3 + t2.len();
        let o5 = o4 + b2.len();
        lemma_skip_string(data, o1, 3, proof_key());
        lemma_skip_string(data, o2, 2, pc);
        lemma_skip_string(data, o3, 3, sth_key());
        lemma_skip_string(data, o4, 2, sc);
        assert(spec_skip_n(data, o5, 0, 0) == Some(o5));
        assert(spec_skip_n(data, o4, 0, 1) == Some(o5));
        assert(spec_skip_n(data, o3, 0, 2) == Some(o5));
        assert(spec_skip_n(data, o2, 0, 3) == Some(o5));
        assert(spec_skip_n(data, o1, 0, 4) == Some(o5));
    }
}

proof fn lemma_step_reads_proof(u: Seq<u8>, o1: int, o2: int, o3: int, pc: Seq<u8>, ip: Option<ProofModel>,
    sth: Option<SthModel>)
    requires
        spec_decode_string(u, o1, 3) == Some((proof_key(), o2)),
        spec_decode_string(u, o2, 2) == Some((pc, o3)),
    ensures
        spec_anchor_step(u, o1, ip, sth) == Some((o3, ok_model(spec_proof_from_cbor(pc, 0)), sth)),
{
    reveal(spec_anchor_step);
}

proof fn lemma_step_reads_sth(u: Seq<u8>, o1: int, o2: int, o3: int, sc: Seq<u8>, ip: Option<ProofModel>,
    sth: Option<SthModel>)
    requires
        spec_decode_string(u, o1, 3) == Some((sth_key(), o2)),
        spec_decode_string(u, o2, 2) == Some((sc, o3)),
    ensures
        spec_anchor_step(u, o1, ip, sth) == Some((o3, ip, ok_model(spec_sth_from_cbor(sc, 0)))),
{
    reveal(spec_anchor_step);
    assert(sth_key() != proof_key()) by {
        assert(sth_key().len() != proof_key().len());
    }
}

/// The header carrying the proof bytes `pc` and tree-head bytes `sc`.
spec fn anchor_header_of(pc: Seq<u8>, sc: Seq<u8>) -> Seq<u8> {
    spec_encode_head(MAJOR_MAP, 2)
        + spec_encode_head(MAJOR_TSTR, 19) + proof_key() + spec_encode_bstr(pc)
        + spec_encode_head(MAJOR_TSTR, 7) + sth_key() + spec_encode_bstr(sc)
}

#[verifier::spinoff_prover]
#[verifier::rlimit(100)]
proof fn lemma_header_scan(pc: Seq<u8>, sc: Seq<u8>)
    requires
        pc.len() <= MAX_BSTR_LENGTH,
        sc.len() <= MAX_BSTR_LENGTH,
    ensures
        spec_anchor_of_header(anchor_header_of(pc, sc)) == match (ok_model(spec_proof_from_cbor(pc, 0)),
            ok_model(spec_sth_from_cbor(sc, 0))) {
            (Some(p), Some(t)) => Some(AnchorModel { proof: p, sth: t }),
            _ => None,
        },
{
    let u = anchor_header_of(pc, sc);
    let h = spec_encode_head(MAJOR_MAP, 2);
    let t1 = spec_encode_head(MAJOR_TSTR, 19) + proof_key();
    let b1 = spec_encode_bstr(pc);
    let t2 = spec_encode_head(MAJOR_TSTR, 7) + sth_key();
    let b2 = spec_encode_bstr(sc);
    assert(u =~= h + t1 + b1 + t2 + b2);
    assert(u.subrange(0, u.len() as int) =~= u);
    lemma_split(u, 0, h + t1 + b1 + t2, b2);
    lemma_split(u, 0, h + t1 + b1, t2);
    lemma_split(u, 0, h + t1, b1);
    lemma_split(u, 0, h, t1);
    let o1 = h.len() as int;
    let o2 = o1 + t1.len();
    let o3 = o2 + b1.len();
    let o4 = o3 + t2.len();
    let o5 = o4 + b2.len();
    lemma_head_roundtrip(u, 0, MAJOR_MAP, 2);
    lemma_bstr_roundtrip(u, o1, proof_key(), 3);
    lemma_bstr_roundtrip(u, o2, pc, 2);
    lemma_bstr_roundtrip(u, o3, sth_key(), 3);
    lemma_bstr_roundtrip(u, o4, sc, 2);
    lemma_step_reads_proof(u, o1, o1 + spec_encode_head(MAJOR_TSTR, 19).len() + 19, o3, pc, None, None);
    let ip = ok_model(spec_proof_from_cbor(pc, 0));
    lemma_step_reads_sth(u, o3, o3 + spec_encode_head(MAJOR_TSTR, 7).len() + 7, o5, sc, ip, None);
    let sm = ok_model(spec_sth_from_cbor(sc, 0));
    assert(spec_anchor_scan(u, o5, 0, ip, sm) == Some((ip, sm)));
    assert(spec_anchor_scan(u, o3, 1, ip, None) == Some((ip, sm)));
    assert(spec_anchor_scan(u, o1, 2, None, None) == Some((ip, sm)));
}

/// The anchor written to an unprotected header is the anchor read from
/// it, its tree head as that reads back.
pub proof fn law_anchor_header_roundtrip(a: AnchorModel)
    requires
        anchor_encodable(a),
    ensures
        spec_anchor_of_header(spec_anchor_header(a)) == Some(anchor_read_back(a)),
{
    let pc = spec_proof_cbor(a.proof);
    let sc = spec_sth_cbor(a.sth);
    assert(spec_anchor_header(a) == anchor_header_of(pc, sc));
    crate::cbor::lemma_encode_head_len(MAJOR_BSTR, pc.len() as u64);
    crate::cbor::lemma_encode_head_len(MAJOR_BSTR, sc.len() as u64);
    lemma_header_scan(pc, sc);
    law_proof_cbor_roundtrip(a.proof);
    law_sth_cbor_roundtrip(a.sth);
}

/// Payloads whose rules need nothing from the trust store: no parent,
/// not a revocation or recovery, and an object wherever the predicate
/// needs one.
pub open spec fn links_free(p: PayloadModel) -> bool {
    &&& p.lineage is None
    &&& p.predicate != Predicate::Revokes
    &&& p.predicate != Predicate::Recovers
    &&& (crate::verify::needs_object(p.predicate) ==> p.object is Some)
}

/// Payloads whose verification needs nothing from the trust store but
/// the signer's key: rules free of links, and no anchor commitment.
pub open spec fn simple_payload(p: PayloadModel) -> bool {
    links_free(p) && p.anchor_hash is None
}

proof fn lemma_signed_ed25519_checks_with(p: PayloadModel, seed: Seq<u8>, cose: Seq<u8>, u: Seq<u8>)
    requires
        payload_signable(p),
        crate::cose::spec_verify_ed25519(cose, crate::crypto::spec_ed25519_public(seed))
            == Ok::<Seq<u8>, ErrorKind>(spec_encode_payload(p)),
        crate::cose::parses_as(cose, crate::cose::spec_protected_header(crate::cose::ALG_ED25519,
            crate::crypto::spec_ed25519_public(seed)), u, spec_encode_payload(p)),
        crate::crypto::spec_ed25519_public(seed).len() == 32,
        crate::crypto::spec_ed25519_point_valid(crate::crypto::spec_ed25519_public(seed)),
    ensures
        spec_statement_payload(cose) == Ok::<PayloadModel, ErrorKind>(normalize_payload(p)),
        crate::verify::spec_check_envelope(cose) is Ok,
        crate::verify::spec_verify_statement_ed25519(cose, crate::crypto::spec_ed25519_public(seed)) is Ok,
        crate::verify::spec_signature_check(cose, -8i64, Some(crate::crypto::spec_ed25519_public(seed)), None, None) is Ok,
        links_free(p) ==> forall|ans: crate::verify::StoreAnswers| ans.ed_key == Some(crate::crypto::spec_ed25519_public(seed))
            ==> #[trigger] crate::verify::spec_verify_statement(cose, ans)
                == crate::verify::spec_anchor_check(cose, normalize_payload(p), spec_encode_payload(p), ans.log_key, ans.revoked),
{
    let pk = crate::crypto::spec_ed25519_public(seed);
    reveal(crate::verify::spec_check_envelope);
    reveal(crate::verify::spec_signature_check);
    reveal(crate::verify::spec_revokes_check);
    reveal(crate::verify::spec_recovers_check);
    crate::cbor_payload::law_payload_roundtrip(p);
    crate::cbor_payload::law_encoding_is_deterministic(p);
    crate::verify::lemma_protected_header_reads_back(-8i64, pk);
}

proof fn lemma_signed_ed25519_checks(p: PayloadModel, seed: Seq<u8>, cose: Seq<u8>)
    requires
        payload_signable(p),
        crate::cose::spec_verify_ed25519(cose, crate::crypto::spec_ed25519_public(seed))
            == Ok::<Seq<u8>, ErrorKind>(spec_encode_payload(p)),
        crate::cose::parses_as(cose, crate::cose::spec_protected_header(crate::cose::ALG_ED25519,
            crate::crypto::spec_ed25519_public(seed)), empty_map(), spec_encode_payload(p)),
        crate::crypto::spec_ed25519_public(seed).len() == 32,
        crate::crypto::spec_ed25519_point_valid(crate::crypto::spec_ed25519_public(seed)),
    ensures
        spec_statement_payload(cose) == Ok::<PayloadModel, ErrorKind>(normalize_payload(p)),
        crate::verify::spec_check_envelope(cose) is Ok,
        crate::verify::spec_verify_statement_ed25519(cose, crate::crypto::spec_ed25519_public(seed)) is Ok,
        crate::verify::spec_signature_check(cose, -8i64, Some(crate::crypto::spec_ed25519_public(seed)), None, None) is Ok,
        simple_payload(p) ==> forall|ans: crate::verify::StoreAnswers| ans.ed_key == Some(crate::crypto::spec_ed25519_public(seed))
            ==> #[trigger] crate::verify::spec_verify_statement(cose, ans)
                == Ok::<Seq<crate::verify::Warning>, ErrorKind>(seq![crate::verify::Warning::TemporalEvidenceMissing]),
{
    lemma_signed_ed25519_checks_with(p, seed, cose, empty_map());
    reveal(crate::verify::spec_anchor_check);
    assert(crate::ct::spec_anchor_of_header(empty_map()) is None) by {
        assert(spec_encode_head(MAJOR_MAP, 0) =~= empty_map());
        assert(empty_map().subrange(0, 1) =~= empty_map());
        crate::cbor::lemma_head_roundtrip(empty_map(), 0, MAJOR_MAP, 0);
    }
    assert(crate::ct::spec_extract_anchor(cose) is None);
}

proof fn lemma_signed_composite_checks_with(p: PayloadModel, ed_seed: Seq<u8>, ml_seed: Seq<u8>, cose: Seq<u8>, u: Seq<u8>)
    requires
        payload_signable(p),
        forall|mode: crate::cose::VerificationMode| #[trigger] crate::cose::spec_verify_composite(cose,
            crate::crypto::spec_ed25519_public(ed_seed), crate::crypto::spec_mldsa65_public(ml_seed), mode)
            == Ok::<Seq<u8>, ErrorKind>(spec_encode_payload(p)),
        crate::cose::parses_as(cose, crate::cose::spec_protected_header(crate::cose::ALG_COMPOSITE,
            crate::cose::spec_composite_kid(crate::crypto::spec_ed25519_public(ed_seed),
                crate::crypto::spec_mldsa65_public(ml_seed))), u, spec_encode_payload(p)),
        crate::cose::spec_composite_kid(crate::crypto::spec_ed25519_public(ed_seed),
            crate::crypto::spec_mldsa65_public(ml_seed)).len() == 32,
    ensures
        spec_statement_payload(cose) == Ok::<PayloadModel, ErrorKind>(normalize_payload(p)),
        crate::verify::spec_check_envelope(cose) is Ok,
        links_free(p) ==> forall|ans: crate::verify::StoreAnswers| ans.composite_key
            == Some((crate::crypto::spec_ed25519_public(ed_seed), crate::crypto::spec_mldsa65_public(ml_seed)))
            ==> #[trigger] crate::verify::spec_verify_statement(cose, ans)
                == crate::verify::spec_anchor_check(cose, normalize_payload(p), spec_encode_payload(p), ans.log_key, ans.revoked),
{
    let kid = crate::cose::spec_composite_kid(crate::crypto::spec_ed25519_public(ed_seed),
        crate::crypto::spec_mldsa65_public(ml_seed));
    reveal(crate::verify::spec_check_envelope);
    reveal(crate::verify::spec_signature_check);
    reveal(crate::verify::spec_revokes_check);
    reveal(crate::verify::spec_recovers_check);
    crate::cbor_payload::law_payload_roundtrip(p);
    crate::cbor_payload::law_encoding_is_deterministic(p);
    crate::verify::lemma_protected_header_reads_back(-39i64, kid);
    assert(crate::cose::spec_verify_composite(cose, crate::crypto::spec_ed25519_public(ed_seed),
        crate::crypto::spec_mldsa65_public(ml_seed), crate::cose::VerificationMode::Hybrid)
        == Ok::<Seq<u8>, ErrorKind>(spec_encode_payload(p)));
}

impl Statement {
    /// Signs `payload` with the Ed25519 key of seed `signing_key`. The
    /// statement's payload decodes back to the payload (in its normal
    /// form) when it can be carried.
    pub fn sign_ed25519(payload: &AxiomPayload, signing_key: &[u8; 32]) -> (r: Result<Self>)
        ensures
            r matches Ok(s) && s.cose_bytes@ == spec_sign_ed25519_with(spec_encode_payload(payload@), signing_key@, empty_map()),
            payload_signable(payload@) ==> (r matches Ok(s)
                && spec_statement_payload(s.cose_bytes@) == Ok::<PayloadModel, ErrorKind>(normalize_payload(payload@))),
            payload_signable(payload@) ==> (r matches Ok(s)
                && crate::verify::spec_check_envelope(s.cose_bytes@) is Ok
                && crate::verify::spec_verify_statement_ed25519(s.cose_bytes@,
                    crate::crypto::spec_ed25519_public(signing_key@)) is Ok
                && crate::verify::spec_signature_check(s.cose_bytes@, -8i64,
                    Some(crate::crypto::spec_ed25519_public(signing_key@)), None, None) is Ok),
            payload_signable(payload@) && simple_payload(payload@) ==> (r matches Ok(s)
                && forall|ans: crate::verify::StoreAnswers| ans.ed_key == Some(crate::crypto::spec_ed25519_public(signing_key@))
                    ==> #[trigger] crate::verify::spec_verify_statement(s.cose_bytes@, ans)
                        == Ok::<Seq<crate::verify::Warning>, ErrorKind>(seq![crate::verify::Warning::TemporalEvidenceMissing])),
    {
        let payload_bytes = payload.encode();
        let cose_bytes = crate::cose::sign_ed25519(payload_bytes.as_slice(), signing_key)?;
        proof {
            if payload_signable(payload@) {
                lemma_signed_ed25519_checks(payload@, signing_key@, cose_bytes@);
            }
        }
        Ok(Statement { cose_bytes })
    }

    /// Signs `payload` with the composite key of seeds `ed_sk` and
    /// `ml_sk`; a `Crypto` error where ML-DSA-65 gives up.
    pub fn sign_composite(payload: &AxiomPayload, ed_sk: &[u8; 32], ml_sk: &[u8; 32]) -> (r: Result<Self>)
        ensures
            match spec_sign_composite_with(spec_encode_payload(payload@), ed_sk@, ml_sk@, empty_map()) {
                Some(v) => r matches Ok(s) && s.cose_bytes@ == v,
                None => r matches Err(e) && e.kind() == ErrorKind::Crypto,
            },
            payload_signable(payload@) ==> (r matches Ok(s) ==>
                spec_statement_payload(s.cose_bytes@) == Ok::<PayloadModel, ErrorKind>(normalize_payload(payload@))
                && crate::verify::spec_check_envelope(s.cose_bytes@) is Ok),
            payload_signable(payload@) && simple_payload(payload@) ==> (r matches Ok(s) ==>
                forall|ans: crate::verify::StoreAnswers| ans.composite_key
                    == Some((crate::crypto::spec_ed25519_public(ed_sk@), crate::crypto::spec_mldsa65_public(ml_sk@)))
                    ==> #[trigger] crate::verify::spec_verify_statement(s.cose_bytes@, ans)
                        == Ok::<Seq<crate::verify::Warning>, ErrorKind>(seq![crate::verify::Warning::TemporalEvidenceMissing])),
    {
        let payload_bytes = payload.encode();
        let cose_bytes = crate::cose::sign_composite(payload_bytes.as_slice(), ed_sk, ml_sk)?;
        proof {
            if payload_signable(payload@) {
                lemma_signed_composite_checks_with(payload@, ed_sk@, ml_sk@, cose_bytes@, empty_map());
                reveal(crate::verify::spec_anchor_check);
                assert(crate::ct::spec_anchor_of_header(empty_map()) is None) by {
                    assert(spec_encode_head(MAJOR_MAP, 0) =~= empty_map());
                    assert(empty_map().subrange(0, 1) =~= empty_map());
                    crate::cbor::lemma_head_roundtrip(empty_map(), 0, MAJOR_MAP, 0);
                }
                assert(crate::ct::spec_extract_anchor(cose_bytes@) is None);
            }
        }
        Ok(Statement { cose_bytes })
    }

    /// Wraps envelope bytes whose payload can be extracted.
    pub fn from_bytes(bytes: &[u8]) -> (r: Result<Self>)
        ensures
            match spec_parse_cose(bytes@) {
                Ok(_) => r matches Ok(s) && s.cose_bytes@ == bytes@,
                Err(k) => r matches Err(e) && e.kind() == k
                    && crate::error::error_message(e) == crate::cose::cose_error_text(bytes@),
            },
    {
        extract_payload(bytes)?;
        let mut v: Vec<u8> = Vec::new();
        append_bytes(&mut v, bytes);
        Ok(Statement { cose_bytes: v })
    }

    /// The envelope bytes.
    pub fn to_bytes(&self) -> (r: &[u8])
        ensures
            r@ == self.cose_bytes@,
    {
        self.cose_bytes.as_slice()
    }

    /// The payload bytes of the envelope.
    pub fn extract_payload_bytes(&self) -> (r: Result<Vec<u8>>)
        ensures
            match spec_parse_cose(self.cose_bytes@) {
                Ok(p) => r matches Ok(v) && v@ == p.payload,
                Err(k) => r matches Err(e) && e.kind() == k
                    && crate::error::error_message(e) == crate::cose::cose_error_text(self.cose_bytes@),
            },
    {
        extract_payload(self.cose_bytes.as_slice())
    }

    /// The decoded payload.
    pub fn decode_payload(&self) -> (r: Result<AxiomPayload>)
        ensures
            match spec_statement_payload(self.cose_bytes@) {
                Ok(m) => r matches Ok(p) && p@ == m,
                Err(k) => r matches Err(e) && e.kind() == k
                    && crate::error::error_message(e) == statement_payload_error_text(self.cose_bytes@),
            },
    {
        let payload_bytes = self.extract_payload_bytes()?;
        AxiomPayload::decode(payload_bytes.as_slice())
    }

    /// BLAKE3 hash of the payload bytes.
    pub fn payload_hash(&self) -> (r: Result<[u8; 32]>)
        ensures
            match spec_parse_cose(self.cose_bytes@) {
                Ok(p) => r matches Ok(h) && h@ == spec_blake3(p.payload),
                Err(k) => r matches Err(e) && e.kind() == k
                    && crate::error::error_message(e) == crate::cose::cose_error_text(self.cose_bytes@),
            },
    {
        let payload_bytes = self.extract_payload_bytes()?;
        Ok(blake3(payload_bytes.as_slice()))
    }

    /// The payload's subject.
    pub fn subject(&self) -> (r: Result<[u8; 32]>)
        ensures
            match spec_statement_payload(self.cose_bytes@) {
                Ok(m) => r matches Ok(x) && x@ == m.subject,
                Err(k) => r matches Err(e) && e.kind() == k,
            },
    {
        let p = self.decode_payload()?;
        Ok(p.subject)
    }

    /// The payload's predicate.
    pub fn predicate(&self) -> (r: Result<Predicate>)
        ensures
            match spec_statement_payload(self.cose_bytes@) {
                Ok(m) => r == Ok::<Predicate, Error>(m.predicate),
                Err(k) => r matches Err(e) && e.kind() == k,
            },
    {
        let p = self.decode_payload()?;
        Ok(p.predicate)
    }

    /// The payload's object.
    pub fn object(&self) -> (r: Result<Option<[u8; 32]>>)
        ensures
            match spec_statement_payload(self.cose_bytes@) {
                Ok(m) => r matches Ok(x) && crate::cbor_payload::opt32(x) == m.object,
                Err(k) => r matches Err(e) && e.kind() == k,
            },
    {
        let p = self.decode_payload()?;
        Ok(p.object)
    }

    /// The payload's timestamp.
    pub fn timestamp(&self) -> (r: Result<Option<u64>>)
        ensures
            match spec_statement_payload(self.cose_bytes@) {
                Ok(m) => r == Ok::<Option<u64>, Error>(m.timestamp),
                Err(k) => r matches Err(e) && e.kind() == k,
            },
    {
        let p = self.decode_payload()?;
        Ok(p.timestamp)
    }

    /// The payload's lineage.
    pub fn lineage(&self) -> (r: Result<Option<[u8; 32]>>)
        ensures
            match spec_statement_payload(self.cose_bytes@) {
                Ok(m) => r matches Ok(x) && crate::cbor_payload::opt32(x) == m.lineage,
                Err(k) => r matches Err(e) && e.kind() == k,
            },
    {
        let p = self.decode_payload()?;
        Ok(p.lineage)
    }

    /// BLAKE3 hash of the whole envelope: the statement's identity.
    pub fn cose_hash(&self) -> (r: [u8; 32])
        ensures
            r@ == spec_blake3(self.cose_bytes@),
    {
        blake3(self.cose_bytes.as_slice())
    }

    /// Signs `payload` with the Ed25519 key of seed `signing_key`, with
    /// `anchor` in the unprotected header, bound to the signature. When
    /// the anchor and payload can be carried, the envelope verifies under
    /// the signer's public key, its payload decodes back, and the anchor
    /// reads back from it.
    pub fn sign_ed25519_and_anchor(payload: &AxiomPayload, signing_key: &[u8; 32], anchor: &TemporalAnchor) -> (r: Result<Self>)
        ensures
            r matches Ok(s) && s.cose_bytes@ == spec_sign_ed25519_with(spec_encode_payload(payload@), signing_key@,
                spec_anchor_header(anchor@)),
            anchor_encodable(anchor@) && spec_encode_payload(payload@).len() <= MAX_BSTR_LENGTH ==> (r matches Ok(s)
                && crate::ct::spec_extract_anchor(s.cose_bytes@) == Some(anchor_read_back(anchor@))
                && crate::cose::spec_verify_ed25519(s.cose_bytes@, crate::crypto::spec_ed25519_public(signing_key@))
                    == Ok::<Seq<u8>, ErrorKind>(spec_encode_payload(payload@))),
            anchor_encodable(anchor@) && payload_signable(payload@) ==> (r matches Ok(s)
                && spec_statement_payload(s.cose_bytes@) == Ok::<PayloadModel, ErrorKind>(normalize_payload(payload@))
                && crate::verify::spec_verify_statement_ed25519(s.cose_bytes@,
                    crate::crypto::spec_ed25519_public(signing_key@)) is Ok),
            anchor_encodable(anchor@) && payload_signable(payload@) && links_free(payload@)
                && (payload@.anchor_hash is None || payload@.anchor_hash == Some(spec_blake3(spec_anchor_header(anchor@))))
                ==> (r matches Ok(s) && forall|ans: crate::verify::StoreAnswers|
                    ans.ed_key == Some(crate::crypto::spec_ed25519_public(signing_key@))
                    ==> #[trigger] crate::verify::spec_verify_statement(s.cose_bytes@, ans)
                        == crate::verify::spec_temporal(anchor_read_back(anchor@), normalize_payload(payload@),
                            spec_encode_payload(payload@), ans.log_key, ans.revoked)),
    {
        let header = build_anchor_unprotected_header(anchor);
        let payload_bytes = payload.encode();
        proof {
            if anchor_encodable(anchor@) {
                lemma_anchor_header_ok(anchor@);
                law_anchor_header_roundtrip(anchor@);
            }
            if payload_signable(payload@) {
                crate::cbor_payload::law_payload_roundtrip(payload@);
            }
        }
        let cose_bytes = sign_ed25519_with_unprotected(payload_bytes.as_slice(), signing_key, header.as_slice())?;
        proof {
            if anchor_encodable(anchor@) && payload_signable(payload@) {
                lemma_signed_ed25519_checks_with(payload@, signing_key@, cose_bytes@, header@);
                reveal(crate::verify::spec_anchor_check);
                assert(crate::ct::spec_extract_anchor(cose_bytes@) == Some(anchor_read_back(anchor@)));
            }
        }
        Ok(Statement { cose_bytes })
    }

    /// Signs `payload` with the composite key of seeds `ed_signing_key` and
    /// `ml_signing_key`, with `anchor` in the unprotected header; a
    /// `Crypto` error where ML-DSA-65 gives up. When the anchor and
    /// payload can be carried, a signed envelope verifies under the
    /// composite public key in every mode, and the anchor reads back from
    /// it.
    pub fn sign_composite_and_anchor(
        payload: &AxiomPayload,
        ed_signing_key: &[u8; 32],
        ml_signing_key: &[u8; 32],
        anchor: &TemporalAnchor,
    ) -> (r: Result<Self>)
        ensures
            match spec_sign_composite_with(spec_encode_payload(payload@), ed_signing_key@, ml_signing_key@,
                spec_anchor_header(anchor@)) {
                Some(v) => r matches Ok(s) && s.cose_bytes@ == v,
                None => r matches Err(e) && e.kind() == ErrorKind::Crypto,
            },
            anchor_encodable(anchor@) && spec_encode_payload(payload@).len() <= MAX_BSTR_LENGTH ==> (r matches Ok(s) ==>
                crate::ct::spec_extract_anchor(s.cose_bytes@) == Some(anchor_read_back(anchor@))
                && (forall|mode: crate::cose::VerificationMode| #[trigger] crate::cose::spec_verify_composite(s.cose_bytes@,
                    crate::crypto::spec_ed25519_public(ed_signing_key@), crate::crypto::spec_mldsa65_public(ml_signing_key@),
                    mode) == Ok::<Seq<u8>, ErrorKind>(spec_encode_payload(payload@)))),
            anchor_encodable(anchor@) && payload_signable(payload@) ==> (r matches Ok(s) ==>
                spec_statement_payload(s.cose_bytes@) == Ok::<PayloadModel, ErrorKind>(normalize_payload(payload@))),
            anchor_encodable(anchor@) && payload_signable(payload@) && links_free(payload@)
                && (payload@.anchor_hash is None || payload@.anchor_hash == Some(spec_blake3(spec_anchor_header(anchor@))))
                ==> (r matches Ok(s) ==> forall|ans: crate::verify::StoreAnswers| ans.composite_key
                    == Some((crate::crypto::spec_ed25519_public(ed_signing_key@), crate::crypto::spec_mldsa65_public(ml_signing_key@)))
                    ==> #[trigger] crate::verify::spec_verify_statement(s.cose_bytes@, ans)
                        == crate::verify::spec_temporal(anchor_read_back(anchor@), normalize_payload(payload@),
                            spec_encode_payload(payload@), ans.log_key, ans.revoked)),
    {
        let header = build_anchor_unprotected_header(anchor);
        let payload_bytes = payload.encode();
        proof {
            if anchor_encodable(anchor@) {
                lemma_anchor_header_ok(anchor@);
                law_anchor_header_roundtrip(anchor@);
            }
            if payload_signable(payload@) {
                crate::cbor_payload::law_payload_roundtrip(payload@);
            }
        }
        let cose_bytes = sign_composite_with_unprotected(payload_bytes.as_slice(), ed_signing_key, ml_signing_key,
            header.as_slice())?;
        proof {
            if anchor_encodable(anchor@) && payload_signable(payload@) {
                lemma_signed_composite_checks_with(payload@, ed_signing_key@, ml_signing_key@, cose_bytes@, header@);
                reveal(crate::verify::spec_anchor_check);
                assert(crate::ct::spec_extract_anchor(cose_bytes@) == Some(anchor_read_back(anchor@)));
            }
        }
        Ok(Statement { cose_bytes })
    }
}

} // verus!
