//! COSE_Sign1 envelopes: building, parsing, and signing or verifying them
//! with Ed25519, ML-DSA-65, or the Ed25519ph + ML-DSA-65 composite.
//!
//! An envelope is the CBOR tag 98 (`0xd8 0x62`) around a four-element
//! array: protected header (byte string holding a map with `alg` at key 1
//! and `kid` at key 4), unprotected header (a map), payload (byte string)
//! and signature (byte string). Signatures cover the `Sig_structure`
//! `["Signature1", protected, external_aad, payload]`, where the external
//! AAD is the BLAKE3 hash of the unprotected header bytes.
use vstd::prelude::*;
use crate::cbor::{
    MAJOR_ARRAY, MAJOR_BSTR, MAJOR_MAP, MAJOR_TSTR, MAJOR_UINT, append_bytes, decode_bstr, decode_map_len,
    decode_uint, encode_negative_int, encode_uint, encode_uint_head, read_raw_arg, skip_value,
    spec_decode_head, spec_decode_string, spec_encode_bstr, spec_encode_head, spec_encode_negative_int,
    spec_raw_arg, spec_skip, spec_skip_n, skip_error_text, skip_n_error_text, string_error_text,
};
use crate::cbor::MAX_BSTR_LENGTH;
use crate::crypto::{
    ed25519_point_valid, ed25519_public, ed25519_sign, ed25519_verify, ed25519ph_sign, ed25519ph_verify,
    mldsa65_public, mldsa65_sig_decodes, mldsa65_sign, mldsa65_verify, spec_blake3, spec_ed25519_point_valid,
    spec_ed25519_public, spec_ed25519_sign, spec_ed25519_verify, spec_ed25519ph_sign, spec_ed25519ph_verify,
    spec_mldsa65_public, spec_mldsa65_sig_decodes, spec_mldsa65_sign, spec_mldsa65_verify,
};
use crate::error::{Error, ErrorKind, Result, crypto_error, error_message, malformed_error};
use crate::hash::blake3;

verus! {

/// Size of an encoded ML-DSA-65 public key.
pub const MLDSA65_PK_SIZE: usize = 1952;
/// Size of an encoded ML-DSA-65 signature.
pub const MLDSA65_SIG_SIZE: usize = 3309;
/// Size of a composite signature: the ML-DSA-65 signature followed by the
/// 64-byte Ed25519ph signature.
pub const COMPOSITE_SIG_SIZE: usize = 3373;

/// The public key of the Ed25519 signing key whose seed is `signing_key`.
pub fn ed25519_verifying_key(signing_key: &[u8; 32]) -> (r: [u8; 32])
    ensures
        r@ == spec_ed25519_public(signing_key@),
        spec_ed25519_point_valid(r@),
{
    ed25519_public(signing_key)
}

/// The encoded public key of the ML-DSA-65 key generated from `seed`.
pub fn mldsa65_verifying_key(seed: &[u8; 32]) -> (r: [u8; 1952])
    ensures
        r@ == spec_mldsa65_public(seed@),
{
    mldsa65_public(seed)
}

/// COSE algorithm identifier of pure Ed25519.
pub const ALG_ED25519: i64 = -8;
/// COSE algorithm identifier of ML-DSA-65 alone.
pub const ALG_MLDSA65: i64 = -38;
/// COSE algorithm identifier of the Ed25519ph + ML-DSA-65 composite.
pub const ALG_COMPOSITE: i64 = -39;

/// The context string of composite signatures, `"Verax-Provenance-v1"`.
pub open spec fn context_string() -> Seq<u8> {
    seq![0x56u8, 0x65, 0x72, 0x61, 0x78, 0x2d, 0x50, 0x72, 0x6f, 0x76, 0x65, 0x6e, 0x61, 0x6e, 0x63,
        0x65, 0x2d, 0x76, 0x31]
}

fn context_bytes() -> (r: [u8; 19])
    ensures
        r@ == context_string(),
{
    let r: [u8; 19] = [0x56, 0x65, 0x72, 0x61, 0x78, 0x2d, 0x50, 0x72, 0x6f, 0x76, 0x65, 0x6e, 0x61,
        0x6e, 0x63, 0x65, 0x2d, 0x76, 0x31];
    assert(r@ =~= context_string());
    r
}

/// The text `"Signature1"` as bytes.
pub open spec fn signature1() -> Seq<u8> {
    seq![0x53u8, 0x69, 0x67, 0x6e, 0x61, 0x74, 0x75, 0x72, 0x65, 0x31]
}

/// The empty map, the unprotected header of envelopes without anchor.
pub open spec fn empty_map() -> Seq<u8> {
    seq![0xa0u8]
}

// ---------------------------------------------------------------------
// Building

/// Encoding of the `alg` value.
pub open spec fn spec_encode_alg(alg_id: i64) -> Seq<u8> {
    if alg_id < 0 { spec_encode_negative_int(alg_id) } else { spec_encode_head(MAJOR_UINT, alg_id as u64) }
}

/// Protected header `{1: alg_id, 4: kid}`.
pub open spec fn spec_protected_header(alg_id: i64, kid: Seq<u8>) -> Seq<u8> {
    spec_encode_head(MAJOR_MAP, 2) + spec_encode_head(MAJOR_UINT, 1) + spec_encode_alg(alg_id)
        + spec_encode_head(MAJOR_UINT, 4) + spec_encode_bstr(kid)
}

/// The `Sig_structure` that signatures cover.
pub open spec fn spec_sig_structure(protected: Seq<u8>, external_aad: Seq<u8>, payload: Seq<u8>) -> Seq<u8> {
    spec_encode_head(MAJOR_ARRAY, 4) + spec_encode_head(MAJOR_TSTR, 10) + signature1()
        + spec_encode_bstr(protected) + spec_encode_bstr(external_aad) + spec_encode_bstr(payload)
}

/// The bytes a signature in an envelope with these parts covers.
pub open spec fn spec_to_be_signed(protected: Seq<u8>, unprotected: Seq<u8>, payload: Seq<u8>) -> Seq<u8> {
    spec_sig_structure(protected, spec_blake3(unprotected), payload)
}

/// A tagged COSE_Sign1 envelope; the unprotected header is written as is.
pub open spec fn spec_envelope(protected: Seq<u8>, unprotected: Seq<u8>, payload: Seq<u8>, signature: Seq<u8>) -> Seq<u8> {
    seq![0xd8u8, 0x62] + spec_encode_head(MAJOR_ARRAY, 4) + spec_encode_bstr(protected) + unprotected
        + spec_encode_bstr(payload) + spec_encode_bstr(signature)
}

fn build_protected_header(alg_id: i64, kid: &[u8]) -> (r: Vec<u8>)
    ensures
        r@ == spec_protected_header(alg_id, kid@),
{
    let mut buf: Vec<u8> = Vec::new();
    encode_uint_head(&mut buf, MAJOR_MAP, 2);
    encode_uint_head(&mut buf, MAJOR_UINT, 1);
    if alg_id < 0 {
        encode_negative_int(&mut buf, alg_id);
    } else {
        encode_uint(&mut buf, alg_id as u64);
    }
    encode_uint_head(&mut buf, MAJOR_UINT, 4);
    encode_uint_head(&mut buf, MAJOR_BSTR, kid.len() as u64);
    append_bytes(&mut buf, kid);
    assert(buf@ =~= spec_protected_header(alg_id, kid@));
    buf
}

fn build_sig_structure(protected: &[u8], external_aad: &[u8], payload: &[u8]) -> (r: Vec<u8>)
    ensures
        r@ == spec_sig_structure(protected@, external_aad@, payload@),
{
    let mut buf: Vec<u8> = Vec::new();
    encode_uint_head(&mut buf, MAJOR_ARRAY, 4);
    encode_uint_head(&mut buf, MAJOR_TSTR, 10);
    let text: [u8; 10] = [0x53, 0x69, 0x67, 0x6e, 0x61, 0x74, 0x75, 0x72, 0x65, 0x31];
    assert(text@ =~= signature1());
    append_bytes(&mut buf, text.as_slice());
    encode_uint_head(&mut buf, MAJOR_BSTR, protected.len() as u64);
    append_bytes(&mut buf, protected);
    encode_uint_head(&mut buf, MAJOR_BSTR, external_aad.len() as u64);
    append_bytes(&mut buf, external_aad);
    encode_uint_head(&mut buf, MAJOR_BSTR, payload.len() as u64);
    append_bytes(&mut buf, payload);
    assert(buf@ =~= spec_sig_structure(protected@, external_aad@, payload@));
    buf
}

fn build_to_be_signed(protected: &[u8], unprotected: &[u8], payload: &[u8]) -> (r: Vec<u8>)
    ensures
        r@ == spec_to_be_signed(protected@, unprotected@, payload@),
{
    let aad = blake3(unprotected);
    build_sig_structure(protected, aad.as_slice(), payload)
}

fn build_envelope(protected: &[u8], unprotected: &[u8], payload: &[u8], signature: &[u8]) -> (r: Vec<u8>)
    ensures
        r@ == spec_envelope(protected@, unprotected@, payload@, signature@),
{
    let mut buf: Vec<u8> = Vec::new();
    buf.push(0xd8);
    buf.push(0x62);
    encode_uint_head(&mut buf, MAJOR_ARRAY, 4);
    encode_uint_head(&mut buf, MAJOR_BSTR, protected.len() as u64);
    append_bytes(&mut buf, protected);
    append_bytes(&mut buf, unprotected);
    encode_uint_head(&mut buf, MAJOR_BSTR, payload.len() as u64);
    append_bytes(&mut buf, payload);
    encode_uint_head(&mut buf, MAJOR_BSTR, signature.len() as u64);
    append_bytes(&mut buf, signature);
    assert(buf@ =~= spec_envelope(protected@, unprotected@, payload@, signature@));
    buf
}

// ---------------------------------------------------------------------
// Parsing

/// The four parts of an envelope.
pub struct CoseParts {
    pub protected: Seq<u8>,
    pub unprotected: Seq<u8>,
    pub payload: Seq<u8>,
    pub signature: Seq<u8>,
}

/// Offset after the unprotected header that starts at `off`: a map whose
/// entries are skipped item by item.
pub open spec fn spec_unprotected_end(data: Seq<u8>, off: int) -> core::result::Result<int, ErrorKind> {
    if off < 0 || off >= data.len() || data[off] / 32 != 5 {
        Err(ErrorKind::MalformedCose)
    } else {
        match spec_raw_arg(data, off + 1, data[off] % 32) {
            None => Err(ErrorKind::MalformedCose),
            Some((n, o)) => match spec_skip_n(data, o, 0, 2 * n) {
                None => Err(ErrorKind::Decode),
                Some(e) => if e > data.len() { Err(ErrorKind::MalformedCose) } else { Ok(e) },
            },
        }
    }
}

/// The message of an unprotected header that cannot be read at `off`.
pub open spec fn unprotected_error_text(data: Seq<u8>, off: int) -> Seq<char> {
    if off < 0 || off >= data.len() {
        "truncated unprotected header"@
    } else if data[off] / 32 != 5 {
        "unprotected header must be a map"@
    } else {
        match spec_raw_arg(data, off + 1, data[off] % 32) {
            None => "bad unprotected header length"@,
            Some((n, o)) => match spec_skip_n(data, o, 0, 2 * n) {
                None => skip_n_error_text(data, o, 0, 2 * n),
                Some(_) => "unprotected header runs past the end"@,
            },
        }
    }
}

/// The message of an envelope that cannot be parsed (see `spec_parse_cose`).
pub open spec fn cose_error_text(data: Seq<u8>) -> Seq<char> {
    match spec_cose_start(data) {
        Err(_) => if data.len() == 0 {
            "empty data"@
        } else if data.len() < 2 {
            "truncated tag"@
        } else {
            "expected tag 98 (COSE_Sign1)"@
        },
        Ok(o) => if o >= data.len() {
            "no data after tag"@
        } else if data[o] / 32 != 4 {
            "expected array"@
        } else {
            match spec_raw_arg(data, o + 1, data[o] % 32) {
                None => "bad array length"@,
                Some((n, o1)) => if n != 4 {
                    "COSE_Sign1 must have 4 elements"@
                } else {
                    match spec_decode_string(data, o1, 2) {
                        None => string_error_text(data, o1, 2),
                        Some((_, o2)) => match spec_unprotected_end(data, o2) {
                            Err(_) => unprotected_error_text(data, o2),
                            Ok(o3) => match spec_decode_string(data, o3, 2) {
                                None => string_error_text(data, o3, 2),
                                Some((_, o4)) => string_error_text(data, o4, 2),
                            },
                        },
                    }
                },
            }
        },
    }
}

/// Offset of the array head: after the tag 98, when present.
pub open spec fn spec_cose_start(data: Seq<u8>) -> core::result::Result<int, ErrorKind> {
    if data.len() == 0 {
        Err(ErrorKind::MalformedCose)
    } else if data[0] == 0xd8 {
        if data.len() < 2 || data[1] != 98 { Err(ErrorKind::MalformedCose) } else { Ok(2) }
    } else {
        Ok(0)
    }
}

/// Parsing of a COSE_Sign1 envelope, optionally tagged: a four-element
/// array (length read without shortest-form check) of byte string,
/// map, byte string, byte string. Bytes after the fourth element are
/// ignored.
pub open spec fn spec_parse_cose(data: Seq<u8>) -> core::result::Result<CoseParts, ErrorKind> {
    match spec_cose_start(data) {
        Err(e) => Err(e),
        Ok(o) => if o >= data.len() || data[o] / 32 != 4 {
            Err(ErrorKind::MalformedCose)
        } else {
            match spec_raw_arg(data, o + 1, data[o] % 32) {
                None => Err(ErrorKind::MalformedCose),
                Some((n, o1)) => if n != 4 {
                    Err(ErrorKind::MalformedCose)
                } else {
                    match spec_decode_string(data, o1, 2) {
                        None => Err(ErrorKind::Decode),
                        Some((prot, o2)) => match spec_unprotected_end(data, o2) {
                            Err(e) => Err(e),
                            Ok(o3) => match spec_decode_string(data, o3, 2) {
                                None => Err(ErrorKind::Decode),
                                Some((pl, o4)) => match spec_decode_string(data, o4, 2) {
                                    None => Err(ErrorKind::Decode),
                                    Some((sig, _)) => Ok(CoseParts {
                                        protected: prot,
                                        unprotected: data.subrange(o2, o3),
                                        payload: pl,
                                        signature: sig,
                                    }),
                                },
                            },
                        },
                    }
                },
            }
        },
    }
}

/// Whether `data` parses as an envelope with these headers and payload.
pub open spec fn parses_as(data: Seq<u8>, protected: Seq<u8>, unprotected: Seq<u8>, payload: Seq<u8>) -> bool {
    spec_parse_cose(data) matches Ok(p) && p.protected == protected && p.unprotected == unprotected && p.payload == payload
}

pub(crate) fn copy_range(data: &[u8], start: usize, end: usize) -> (r: Vec<u8>)
    requires
        start <= end <= data@.len(),
    ensures
        r@ == data@.subrange(start as int, end as int),
{
    let mut v: Vec<u8> = Vec::new();
    let mut i = start;
    while i < end
        invariant
            start <= i <= end,
            end <= data@.len(),
            v@ == data@.subrange(start as int, i as int),
        decreases end - i,
    {
        v.push(data[i]);
        i = i + 1;
        assert(v@ =~= data@.subrange(start as int, i as int));
    }
    v
}

fn decode_unprotected_header(data: &[u8], offset: &mut usize) -> (r: Result<Vec<u8>>)
    ensures
        match spec_unprotected_end(data@, *old(offset) as int) {
            Ok(e) => r matches Ok(v) && v@ == data@.subrange(*old(offset) as int, e) && *final(offset) == e,
            Err(k) => r matches Err(x) && x.kind() == k
                && error_message(x) == unprotected_error_text(data@, *old(offset) as int),
        },
{
    if *offset >= data.len() {
        return Err(malformed_error("truncated unprotected header"));
    }
    let start = *offset;
    let byte = data[start];
    if byte / 32 != 5 {
        return Err(malformed_error("unprotected header must be a map"));
    }
    *offset = start + 1;
    let map_len = match read_raw_arg(data, offset, byte % 32) {
        Ok(n) => n,
        Err(_) => { return Err(malformed_error("bad unprotected header length")); },
    };
    let ghost o = *offset as int;
    let mut i: u64 = 0;
    while i < map_len
        invariant
            i <= map_len,
            start == *old(offset),
            start < data@.len(),
            data@[start as int] / 32 == 5,
            spec_raw_arg(data@, start + 1, data@[start as int] % 32) == Some((map_len as nat, o)),
            o > start,
            spec_skip_n(data@, o, 0, 2 * map_len as nat)
                == spec_skip_n(data@, *offset as int, 0, (2 * map_len - 2 * i) as nat),
            skip_n_error_text(data@, o, 0, 2 * map_len as nat)
                == skip_n_error_text(data@, *offset as int, 0, (2 * map_len - 2 * i) as nat),
        decreases map_len - i,
    {
        let ghost before = *offset as int;
        let ghost left = (2 * map_len - 2 * i) as nat;
        assert(spec_skip_n(data@, before, 0, left) == match spec_skip(data@, before, 0) {
            None => None,
            Some(x) => spec_skip_n(data@, x, 0, (left - 1) as nat),
        });
        assert(skip_n_error_text(data@, before, 0, left) == match spec_skip(data@, before, 0) {
            None => skip_error_text(data@, before, 0),
            Some(x) => skip_n_error_text(data@, x, 0, (left - 1) as nat),
        });
        skip_value(data, offset)?;
        let ghost mid = *offset as int;
        assert(spec_skip_n(data@, mid, 0, (left - 1) as nat) == match spec_skip(data@, mid, 0) {
            None => None,
            Some(x) => spec_skip_n(data@, x, 0, (left - 2) as nat),
        });
        assert(skip_n_error_text(data@, mid, 0, (left - 1) as nat) == match spec_skip(data@, mid, 0) {
            None => skip_error_text(data@, mid, 0),
            Some(x) => skip_n_error_text(data@, x, 0, (left - 2) as nat),
        });
        skip_value(data, offset)?;
        i = i + 1;
    }
    proof {
        crate::cbor::lemma_skip_n_advances(data@, o, 0, 2 * map_len as nat);
    }
    if *offset > data.len() {
        return Err(malformed_error("unprotected header runs past the end"));
    }
    Ok(copy_range(data, start, *offset))
}

/// Splits an envelope into protected header, unprotected header, payload
/// and signature.
pub fn parse_cose_sign1(data: &[u8]) -> (r: Result<(Vec<u8>, Vec<u8>, Vec<u8>, Vec<u8>)>)
    ensures
        match spec_parse_cose(data@) {
            Ok(p) => r matches Ok((a, b, c, d)) && a@ == p.protected && b@ == p.unprotected
                && c@ == p.payload && d@ == p.signature,
            Err(k) => r matches Err(e) && e.kind() == k && error_message(e) == cose_error_text(data@),
        },
{
    if data.len() == 0 {
        return Err(malformed_error("empty data"));
    }
    let mut offset: usize = 0;
    if data[0] == 0xd8 {
        if data.len() < 2 {
            return Err(malformed_error("truncated tag"));
        }
        if data[1] != 98 {
            return Err(malformed_error("expected tag 98 (COSE_Sign1)"));
        }
        offset = 2;
    }
    if offset >= data.len() {
        return Err(malformed_error("no data after tag"));
    }
    let byte = data[offset];
    if byte / 32 != 4 {
        return Err(malformed_error("expected array"));
    }
    offset = offset + 1;
    let len = match read_raw_arg(data, &mut offset, byte % 32) {
        Ok(n) => n,
        Err(_) => { return Err(malformed_error("bad array length")); },
    };
    if len != 4 {
        return Err(malformed_error("COSE_Sign1 must have 4 elements"));
    }
    let protected = decode_bstr(data, &mut offset)?;
    let unprotected = decode_unprotected_header(data, &mut offset)?;
    let payload = decode_bstr(data, &mut offset)?;
    let signature = decode_bstr(data, &mut offset)?;
    Ok((protected, unprotected, payload, signature))
}

/// The payload of an envelope, without verifying its signature.
pub fn extract_payload(data: &[u8]) -> (r: Result<Vec<u8>>)
    ensures
        match spec_parse_cose(data@) {
            Ok(p) => r matches Ok(v) && v@ == p.payload,
            Err(k) => r matches Err(e) && e.kind() == k && error_message(e) == cose_error_text(data@),
        },
{
    let (_, _, payload, _) = parse_cose_sign1(data)?;
    Ok(payload)
}

/// The protected header of an envelope.
pub fn extract_protected(data: &[u8]) -> (r: Result<Vec<u8>>)
    ensures
        match spec_parse_cose(data@) {
            Ok(p) => r matches Ok(v) && v@ == p.protected,
            Err(k) => r matches Err(e) && e.kind() == k,
        },
{
    let (protected, _, _, _) = parse_cose_sign1(data)?;
    Ok(protected)
}

/// The signature of an envelope.
pub fn extract_signature(data: &[u8]) -> (r: Result<Vec<u8>>)
    ensures
        match spec_parse_cose(data@) {
            Ok(p) => r matches Ok(v) && v@ == p.signature,
            Err(k) => r matches Err(e) && e.kind() == k,
        },
{
    let (_, _, _, signature) = parse_cose_sign1(data)?;
    Ok(signature)
}

/// The unprotected header of an envelope, as raw bytes.
pub fn extract_unprotected(data: &[u8]) -> (r: Result<Vec<u8>>)
    ensures
        match spec_parse_cose(data@) {
            Ok(p) => r matches Ok(v) && v@ == p.unprotected,
            Err(k) => r matches Err(e) && e.kind() == k,
        },
{
    let (_, unprotected, _, _) = parse_cose_sign1(data)?;
    Ok(unprotected)
}

// ---------------------------------------------------------------------
// Byte arrays

/// Copies exactly `N` bytes into an array.
pub fn to_array<const N: usize>(b: &[u8]) -> (r: [u8; N])
    requires
        b@.len() == N,
    ensures
        r@ == b@,
{
    let mut a = [0u8; N];
    let mut i: usize = 0;
    while i < N
        invariant
            i <= N,
            b@.len() == N,
            a@.len() == N,
            forall|j: int| 0 <= j < i ==> a@[j] == b@[j],
        decreases N - i,
    {
        a.set(i, b[i]);
        i = i + 1;
    }
    assert(a@ =~= b@);
    a
}

// ---------------------------------------------------------------------
// Ed25519 envelopes

/// Envelope of `payload` signed with the Ed25519 key of seed `seed`: `alg`
/// -8, `kid` the 32-byte public key, unprotected header `unprotected`.
pub open spec fn spec_sign_ed25519_with(payload: Seq<u8>, seed: Seq<u8>, unprotected: Seq<u8>) -> Seq<u8> {
    let prot = spec_protected_header(ALG_ED25519, spec_ed25519_public(seed));
    spec_envelope(prot, unprotected, payload, spec_ed25519_sign(seed, spec_to_be_signed(prot, unprotected, payload)))
}

/// Verification of an Ed25519 envelope under the public key `pk`: the
/// payload when the 64-byte signature verifies.
pub open spec fn spec_verify_ed25519(data: Seq<u8>, pk: Seq<u8>) -> core::result::Result<Seq<u8>, ErrorKind> {
    match spec_parse_cose(data) {
        Err(e) => Err(e),
        Ok(p) => if p.signature.len() != 64 {
            Err(ErrorKind::MalformedCose)
        } else if !spec_ed25519_point_valid(pk) {
            Err(ErrorKind::Crypto)
        } else if !spec_ed25519_verify(pk, spec_to_be_signed(p.protected, p.unprotected, p.payload), p.signature) {
            Err(ErrorKind::InvalidSignature)
        } else {
            Ok(p.payload)
        },
    }
}

/// Parses an envelope, verifies its Ed25519 signature under `pubkey` and
/// returns the payload.
pub fn parse_and_verify_ed25519(data: &[u8], pubkey: &[u8; 32]) -> (r: Result<Vec<u8>>)
    ensures
        match spec_verify_ed25519(data@, pubkey@) {
            Ok(pl) => r matches Ok(v) && v@ == pl,
            Err(k) => r matches Err(e) && e.kind() == k,
        },
{
    let (protected, unprotected, payload, signature) = parse_cose_sign1(data)?;
    if signature.len() != 64 {
        return Err(malformed_error("Ed25519 signature must be 64 bytes"));
    }
    let sig: [u8; 64] = to_array(signature.as_slice());
    if !ed25519_point_valid(pubkey) {
        return Err(crypto_error("invalid Ed25519 public key"));
    }
    let tbs = build_to_be_signed(protected.as_slice(), unprotected.as_slice(), payload.as_slice());
    if !ed25519_verify(pubkey, tbs.as_slice(), &sig) {
        return Err(Error::InvalidSignature);
    }
    Ok(payload)
}

/// Signs `payload` with the Ed25519 key of seed `signing_key` into an
/// envelope with the given unprotected header. Verifying the result under
/// the key's public key gives the payload back.
pub fn sign_ed25519_with_unprotected(payload: &[u8], signing_key: &[u8; 32], unprotected: &[u8]) -> (r: Result<Vec<u8>>)
    ensures
        r matches Ok(v) && v@ == spec_sign_ed25519_with(payload@, signing_key@, unprotected@),
        payload@.len() <= MAX_BSTR_LENGTH && header_ok(unprotected@) ==> (r matches Ok(v)
            && spec_verify_ed25519(v@, spec_ed25519_public(signing_key@)) == Ok::<Seq<u8>, ErrorKind>(payload@)
            && parses_as(v@, spec_protected_header(ALG_ED25519, spec_ed25519_public(signing_key@)), unprotected@, payload@)),
        spec_ed25519_public(signing_key@).len() == 32,
        spec_ed25519_point_valid(spec_ed25519_public(signing_key@)),
{
    let kid = ed25519_public(signing_key);
    let protected = build_protected_header(ALG_ED25519, kid.as_slice());
    let tbs = build_to_be_signed(protected.as_slice(), unprotected, payload);
    let sig = ed25519_sign(signing_key, tbs.as_slice());
    let out = build_envelope(protected.as_slice(), unprotected, payload, sig.as_slice());
    proof {
        if payload@.len() <= MAX_BSTR_LENGTH && header_ok(unprotected@) {
            crate::cbor::lemma_encode_head_len(MAJOR_BSTR, 32);
            lemma_parse_envelope(protected@, unprotected@, payload@, sig@);
        }
    }
    Ok(out)
}

/// Signs `payload` with the Ed25519 key of seed `signing_key` into an
/// envelope with an empty unprotected header.
pub fn sign_ed25519(payload: &[u8], signing_key: &[u8; 32]) -> (r: Result<Vec<u8>>)
    ensures
        r matches Ok(v) && v@ == spec_sign_ed25519_with(payload@, signing_key@, empty_map()),
        payload@.len() <= MAX_BSTR_LENGTH ==> (r matches Ok(v)
            && spec_verify_ed25519(v@, spec_ed25519_public(signing_key@)) == Ok::<Seq<u8>, ErrorKind>(payload@)
            && parses_as(v@, spec_protected_header(ALG_ED25519, spec_ed25519_public(signing_key@)), empty_map(), payload@)),
        spec_ed25519_public(signing_key@).len() == 32,
        spec_ed25519_point_valid(spec_ed25519_public(signing_key@)),
{
    let unprotected: [u8; 1] = [0xa0];
    assert(unprotected@ =~= empty_map());
    proof {
        lemma_empty_map_header_ok();
    }
    sign_ed25519_with_unprotected(payload, signing_key, unprotected.as_slice())
}

// ---------------------------------------------------------------------
// Composite signatures

/// Which components of a composite signature are checked.
#[derive(Debug, Clone, Copy, PartialEq, Eq, Structural)]
pub enum VerificationMode {
    /// Both the Ed25519ph and the ML-DSA-65 signatures must verify.
    Hybrid,
    /// Only the Ed25519ph signature is checked.
    ClassicalOnly,
    /// Only the ML-DSA-65 signature is checked.
    PQOnly,
}

/// An Ed25519 public key together with an ML-DSA-65 public key.
#[derive(Debug, Clone, PartialEq, Eq)]
pub struct CompositePublicKey {
    /// 32-byte Ed25519 public key.
    pub ed25519: [u8; 32],
    /// 1952-byte encoded ML-DSA-65 public key.
    pub mldsa65: [u8; 1952],
}

/// An Ed25519ph signature together with an ML-DSA-65 signature.
#[derive(Debug, Clone, PartialEq, Eq)]
pub struct CompositeSignature {
    /// 64-byte Ed25519ph signature.
    pub ed25519_sig: [u8; 64],
    /// 3309-byte encoded ML-DSA-65 signature.
    pub mldsa65_sig: [u8; 3309],
}

/// Serialized form of a composite signature: ML-DSA-65 part first.
pub open spec fn spec_composite_bytes(ed25519_sig: Seq<u8>, mldsa65_sig: Seq<u8>) -> Seq<u8> {
    mldsa65_sig + ed25519_sig
}

impl CompositeSignature {
    /// The signature as `COMPOSITE_SIG_SIZE` bytes, ML-DSA-65 part first.
    pub fn to_bytes(&self) -> (r: [u8; 3373])
        ensures
            r@ == spec_composite_bytes(self.ed25519_sig@, self.mldsa65_sig@),
    {
        let mut out = [0u8; 3373];
        let mut i: usize = 0;
        while i < 3309
            invariant
                i <= 3309,
                out@.len() == 3373,
                forall|j: int| 0 <= j < i ==> out@[j] == self.mldsa65_sig@[j],
            decreases 3309 - i,
        {
            out.set(i, self.mldsa65_sig[i]);
            i = i + 1;
        }
        while i < 3373
            invariant
                3309 <= i <= 3373,
                out@.len() == 3373,
                forall|j: int| 0 <= j < 3309 ==> out@[j] == self.mldsa65_sig@[j],
                forall|j: int| 3309 <= j < i ==> out@[j] == self.ed25519_sig@[j - 3309],
            decreases 3373 - i,
        {
            out.set(i, self.ed25519_sig[i - 3309]);
            i = i + 1;
        }
        assert(out@ =~= spec_composite_bytes(self.ed25519_sig@, self.mldsa65_sig@));
        out
    }

    /// Splits `COMPOSITE_SIG_SIZE` bytes into the two signatures; any other
    /// length is a `Crypto` error.
    pub fn from_bytes(bytes: &[u8]) -> (r: Result<Self>)
        ensures
            bytes@.len() == 3373 ==> (r matches Ok(s) && s.mldsa65_sig@ == bytes@.subrange(0, 3309)
                && s.ed25519_sig@ == bytes@.subrange(3309, 3373)),
            bytes@.len() != 3373 ==> (r matches Err(e) && e.kind() == ErrorKind::Crypto),
    {
        if bytes.len() != 3373 {
            return Err(crypto_error("composite signature: wrong length"));
        }
        let ml: [u8; 3309] = to_array(copy_range(bytes, 0, 3309).as_slice());
        let ed: [u8; 64] = to_array(copy_range(bytes, 3309, 3373).as_slice());
        Ok(CompositeSignature { ed25519_sig: ed, mldsa65_sig: ml })
    }
}

/// Serializing a composite signature and reading it back gives it back.
pub proof fn law_composite_signature_roundtrip(ed25519_sig: Seq<u8>, mldsa65_sig: Seq<u8>)
    requires
        ed25519_sig.len() == 64,
        mldsa65_sig.len() == 3309,
    ensures
        spec_composite_bytes(ed25519_sig, mldsa65_sig).len() == 3373,
        spec_composite_bytes(ed25519_sig, mldsa65_sig).subrange(0, 3309) == mldsa65_sig,
        spec_composite_bytes(ed25519_sig, mldsa65_sig).subrange(3309, 3373) == ed25519_sig,
{
    assert(spec_composite_bytes(ed25519_sig, mldsa65_sig).subrange(0, 3309) =~= mldsa65_sig);
    assert(spec_composite_bytes(ed25519_sig, mldsa65_sig).subrange(3309, 3373) =~= ed25519_sig);
}

/// Outcome of checking a composite signature over `data` in mode `mode`.
pub open spec fn spec_composite_verify(
    ed_pk: Seq<u8>,
    ml_pk: Seq<u8>,
    data: Seq<u8>,
    ed_sig: Seq<u8>,
    ml_sig: Seq<u8>,
    mode: VerificationMode,
) -> core::result::Result<(), ErrorKind> {
    if mode != VerificationMode::PQOnly && !spec_ed25519_point_valid(ed_pk) {
        Err(ErrorKind::Crypto)
    } else if mode != VerificationMode::PQOnly && !spec_ed25519ph_verify(ed_pk, context_string(), data, ed_sig) {
        Err(ErrorKind::InvalidSignature)
    } else if mode != VerificationMode::ClassicalOnly && !spec_mldsa65_sig_decodes(ml_sig) {
        Err(ErrorKind::Crypto)
    } else if mode != VerificationMode::ClassicalOnly && !spec_mldsa65_verify(ml_pk, data, ml_sig) {
        Err(ErrorKind::InvalidSignature)
    } else {
        Ok(())
    }
}

/// A composite signature is accepted in hybrid mode only when both its
/// Ed25519ph and its ML-DSA-65 parts verify, and then it is accepted in
/// every mode.
pub proof fn law_hybrid_needs_both(ed_pk: Seq<u8>, ml_pk: Seq<u8>, data: Seq<u8>, ed_sig: Seq<u8>, ml_sig: Seq<u8>)
    ensures
        spec_composite_verify(ed_pk, ml_pk, data, ed_sig, ml_sig, VerificationMode::Hybrid) is Ok <==> (
            spec_ed25519_point_valid(ed_pk) && spec_ed25519ph_verify(ed_pk, context_string(), data, ed_sig)
            && spec_mldsa65_sig_decodes(ml_sig) && spec_mldsa65_verify(ml_pk, data, ml_sig)),
        spec_composite_verify(ed_pk, ml_pk, data, ed_sig, ml_sig, VerificationMode::Hybrid) is Ok ==> (
            spec_composite_verify(ed_pk, ml_pk, data, ed_sig, ml_sig, VerificationMode::ClassicalOnly) is Ok
            && spec_composite_verify(ed_pk, ml_pk, data, ed_sig, ml_sig, VerificationMode::PQOnly) is Ok),
{
}

/// Checks a composite signature over `data`, the components selected by
/// `mode`.
pub fn composite_verify(
    pubkey: &CompositePublicKey,
    data: &[u8],
    signature: &CompositeSignature,
    mode: VerificationMode,
) -> (r: Result<()>)
    ensures
        match spec_composite_verify(pubkey.ed25519@, pubkey.mldsa65@, data@, signature.ed25519_sig@,
            signature.mldsa65_sig@, mode) {
            Ok(()) => r is Ok,
            Err(k) => r matches Err(e) && e.kind() == k,
        },
{
    if mode != VerificationMode::PQOnly {
        if !ed25519_point_valid(&pubkey.ed25519) {
            return Err(crypto_error("invalid Ed25519 public key"));
        }
        let ctx = context_bytes();
        if !ed25519ph_verify(&pubkey.ed25519, ctx.as_slice(), data, &signature.ed25519_sig) {
            return Err(Error::InvalidSignature);
        }
    }
    if mode != VerificationMode::ClassicalOnly {
        if !mldsa65_sig_decodes(&signature.mldsa65_sig) {
            return Err(crypto_error("invalid ML-DSA-65 signature"));
        }
        if !mldsa65_verify(&pubkey.mldsa65, data, &signature.mldsa65_sig) {
            return Err(Error::InvalidSignature);
        }
    }
    Ok(())
}

/// The composite public key of the Ed25519 key `ed25519_vk` and the
/// ML-DSA-65 key `mldsa65_vk`.
pub fn composite_pubkey(ed25519_vk: &[u8; 32], mldsa65_vk: &[u8; 1952]) -> (r: CompositePublicKey)
    ensures
        r.ed25519@ == ed25519_vk@,
        r.mldsa65@ == mldsa65_vk@,
{
    CompositePublicKey { ed25519: *ed25519_vk, mldsa65: *mldsa65_vk }
}

/// Signs `data` with the Ed25519ph key of seed `ed25519_sk` (context
/// `"Verax-Provenance-v1"`) and the ML-DSA-65 key of seed `mldsa65_sk`.
/// The result verifies in every mode under the two keys' public keys.
/// Signing fails only where ML-DSA-65 gives up, which `requires` leaves out.
pub fn composite_sign(ed25519_sk: &[u8; 32], mldsa65_sk: &[u8; 32], data: &[u8]) -> (r: CompositeSignature)
    requires
        spec_mldsa65_sign(mldsa65_sk@, data@) is Some,
    ensures
        r.ed25519_sig@ == spec_ed25519ph_sign(ed25519_sk@, context_string(), data@),
        Some(r.mldsa65_sig@) == spec_mldsa65_sign(mldsa65_sk@, data@),
        forall|mode: VerificationMode| #[trigger] spec_composite_verify(spec_ed25519_public(ed25519_sk@),
            spec_mldsa65_public(mldsa65_sk@), data@, r.ed25519_sig@, r.mldsa65_sig@, mode) == Ok::<(), ErrorKind>(()),
{
    match try_composite_sign(ed25519_sk, mldsa65_sk, data) {
        Some(s) => s,
        None => {
            assert(false);
            CompositeSignature { ed25519_sig: [0u8; 64], mldsa65_sig: [0u8; 3309] }
        },
    }
}

/// Composite signature of `data`, or `None` where ML-DSA-65 signing gives
/// up (the case `composite_sign` leaves out).
pub fn try_composite_sign(ed25519_sk: &[u8; 32], mldsa65_sk: &[u8; 32], data: &[u8]) -> (r: Option<CompositeSignature>)
    ensures
        r is Some <==> spec_mldsa65_sign(mldsa65_sk@, data@) is Some,
        r matches Some(s) ==> s.ed25519_sig@ == spec_ed25519ph_sign(ed25519_sk@, context_string(), data@)
            && Some(s.mldsa65_sig@) == spec_mldsa65_sign(mldsa65_sk@, data@)
            && forall|mode: VerificationMode| #[trigger] spec_composite_verify(spec_ed25519_public(ed25519_sk@),
                spec_mldsa65_public(mldsa65_sk@), data@, s.ed25519_sig@, s.mldsa65_sig@, mode) == Ok::<(), ErrorKind>(()),
{
    let ml = match mldsa65_sign(mldsa65_sk, data) {
        Some(m) => m,
        None => { return None; },
    };
    let ctx = context_bytes();
    let ed_pk = ed25519_public(ed25519_sk);
    match ed25519ph_sign(ed25519_sk, ctx.as_slice(), data) {
        Some(e) => Some(CompositeSignature { ed25519_sig: e, mldsa65_sig: ml }),
        None => {
            assert(false);
            None
        },
    }
}

/// Key identifier of a composite key: BLAKE3 of the Ed25519 public key
/// followed by the ML-DSA-65 public key.
pub open spec fn spec_composite_kid(ed_pk: Seq<u8>, ml_pk: Seq<u8>) -> Seq<u8> {
    spec_blake3(ed_pk + ml_pk)
}

/// Envelope of `payload` signed with the composite key of seeds
/// `ed_seed` and `ml_seed` (`alg` -39); `None` where ML-DSA-65 gives up.
pub open spec fn spec_sign_composite_with(payload: Seq<u8>, ed_seed: Seq<u8>, ml_seed: Seq<u8>, unprotected: Seq<u8>) -> Option<Seq<u8>> {
    let prot = spec_protected_header(ALG_COMPOSITE,
        spec_composite_kid(spec_ed25519_public(ed_seed), spec_mldsa65_public(ml_seed)));
    let tbs = spec_to_be_signed(prot, unprotected, payload);
    match spec_mldsa65_sign(ml_seed, tbs) {
        Some(m) => Some(spec_envelope(prot, unprotected, payload,
            spec_composite_bytes(spec_ed25519ph_sign(ed_seed, context_string(), tbs), m))),
        None => None,
    }
}

/// Verification of a composite envelope under `ed_pk` and `ml_pk`: the
/// payload when the signature has the composite size and checks in `mode`.
pub open spec fn spec_verify_composite(data: Seq<u8>, ed_pk: Seq<u8>, ml_pk: Seq<u8>, mode: VerificationMode)
    -> core::result::Result<Seq<u8>, ErrorKind>
{
    match spec_parse_cose(data) {
        Err(e) => Err(e),
        Ok(p) => if p.signature.len() != 3373 {
            Err(ErrorKind::Crypto)
        } else {
            match spec_composite_verify(ed_pk, ml_pk, spec_to_be_signed(p.protected, p.unprotected, p.payload),
                p.signature.subrange(3309, 3373), p.signature.subrange(0, 3309), mode) {
                Err(e) => Err(e),
                Ok(()) => Ok(p.payload),
            }
        },
    }
}

/// Parses an envelope, checks its composite signature in `mode` and
/// returns the payload.
pub fn parse_and_verify_composite(data: &[u8], pubkey: &CompositePublicKey, mode: VerificationMode) -> (r: Result<Vec<u8>>)
    ensures
        match spec_verify_composite(data@, pubkey.ed25519@, pubkey.mldsa65@, mode) {
            Ok(pl) => r matches Ok(v) && v@ == pl,
            Err(k) => r matches Err(e) && e.kind() == k,
        },
{
    let (protected, unprotected, payload, signature) = parse_cose_sign1(data)?;
    let comp_sig = CompositeSignature::from_bytes(signature.as_slice())?;
    let tbs = build_to_be_signed(protected.as_slice(), unprotected.as_slice(), payload.as_slice());
    composite_verify(pubkey, tbs.as_slice(), &comp_sig, mode)?;
    Ok(payload)
}

/// Signs `payload` with the composite key of seeds `ed_sk` and `ml_sk`
/// into an envelope with the given unprotected header; a `Crypto` error
/// where ML-DSA-65 gives up. Verifying the result in any mode under the
/// keys' public keys gives the payload back.
pub fn sign_composite_with_unprotected(payload: &[u8], ed_sk: &[u8; 32], ml_sk: &[u8; 32], unprotected: &[u8]) -> (r: Result<Vec<u8>>)
    ensures
        match spec_sign_composite_with(payload@, ed_sk@, ml_sk@, unprotected@) {
            Some(v) => r matches Ok(x) && x@ == v,
            None => r matches Err(e) && e.kind() == ErrorKind::Crypto,
        },
        payload@.len() <= MAX_BSTR_LENGTH && header_ok(unprotected@) ==> (r matches Ok(x) ==>
            (forall|mode: VerificationMode| #[trigger] spec_verify_composite(x@, spec_ed25519_public(ed_sk@),
                spec_mldsa65_public(ml_sk@), mode) == Ok::<Seq<u8>, ErrorKind>(payload@))
            && parses_as(x@, spec_protected_header(ALG_COMPOSITE,
                spec_composite_kid(spec_ed25519_public(ed_sk@), spec_mldsa65_public(ml_sk@))), unprotected@, payload@)),
        spec_composite_kid(spec_ed25519_public(ed_sk@), spec_mldsa65_public(ml_sk@)).len() == 32,
{
    let ed_pk = ed25519_public(ed_sk);
    let ml_pk = mldsa65_public(ml_sk);
    let mut pk_concat: Vec<u8> = Vec::new();
    append_bytes(&mut pk_concat, ed_pk.as_slice());
    append_bytes(&mut pk_concat, ml_pk.as_slice());
    let kid = blake3(pk_concat.as_slice());
    let protected = build_protected_header(ALG_COMPOSITE, kid.as_slice());
    let tbs = build_to_be_signed(protected.as_slice(), unprotected, payload);
    let ml_sig = match mldsa65_sign(ml_sk, tbs.as_slice()) {
        Some(m) => m,
        None => { return Err(crypto_error("ML-DSA-65 signing failed")); },
    };
    let sig = composite_sign(ed_sk, ml_sk, tbs.as_slice());
    let sig_bytes = sig.to_bytes();
    let out = build_envelope(protected.as_slice(), unprotected, payload, sig_bytes.as_slice());
    proof {
        if payload@.len() <= MAX_BSTR_LENGTH && header_ok(unprotected@) {
            crate::cbor::lemma_encode_head_len(MAJOR_BSTR, 32);
            lemma_parse_envelope(protected@, unprotected@, payload@, sig_bytes@);
            law_composite_signature_roundtrip(sig.ed25519_sig@, sig.mldsa65_sig@);
            assert forall|mode: VerificationMode| #[trigger] spec_verify_composite(out@, spec_ed25519_public(ed_sk@),
                spec_mldsa65_public(ml_sk@), mode) == Ok::<Seq<u8>, ErrorKind>(payload@) by {
                assert(spec_composite_verify(spec_ed25519_public(ed_sk@), spec_mldsa65_public(ml_sk@), tbs@,
                    sig.ed25519_sig@, sig.mldsa65_sig@, mode) == Ok::<(), ErrorKind>(()));
            }
        }
    }
    Ok(out)
}

/// Signs `payload` with the composite key of seeds `ed_sk` and `ml_sk`
/// into an envelope with an empty unprotected header.
pub fn sign_composite(payload: &[u8], ed_sk: &[u8; 32], ml_sk: &[u8; 32]) -> (r: Result<Vec<u8>>)
    ensures
        match spec_sign_composite_with(payload@, ed_sk@, ml_sk@, empty_map()) {
            Some(v) => r matches Ok(x) && x@ == v,
            None => r matches Err(e) && e.kind() == ErrorKind::Crypto,
        },
        payload@.len() <= MAX_BSTR_LENGTH ==> (r matches Ok(x) ==>
            (forall|mode: VerificationMode| #[trigger] spec_verify_composite(x@, spec_ed25519_public(ed_sk@),
                spec_mldsa65_public(ml_sk@), mode) == Ok::<Seq<u8>, ErrorKind>(payload@))
            && parses_as(x@, spec_protected_header(ALG_COMPOSITE,
                spec_composite_kid(spec_ed25519_public(ed_sk@), spec_mldsa65_public(ml_sk@))), empty_map(), payload@)),
        spec_composite_kid(spec_ed25519_public(ed_sk@), spec_mldsa65_public(ml_sk@)).len() == 32,
{
    let unprotected: [u8; 1] = [0xa0];
    assert(unprotected@ =~= empty_map());
    proof {
        lemma_empty_map_header_ok();
    }
    sign_composite_with_unprotected(payload, ed_sk, ml_sk, unprotected.as_slice())
}

// ---------------------------------------------------------------------
// ML-DSA-65 envelopes

/// Envelope of `payload` signed with the ML-DSA-65 key of seed `seed`
/// (`alg` -38, `kid` the encoded public key); `None` where signing gives up.
pub open spec fn spec_sign_mldsa65(payload: Seq<u8>, seed: Seq<u8>) -> Option<Seq<u8>> {
    let prot = spec_protected_header(ALG_MLDSA65, spec_mldsa65_public(seed));
    let tbs = spec_to_be_signed(prot, empty_map(), payload);
    match spec_mldsa65_sign(seed, tbs) {
        Some(m) => Some(spec_envelope(prot, empty_map(), payload, m)),
        None => None,
    }
}

/// Verification of an ML-DSA-65 envelope under `pk`.
pub open spec fn spec_verify_mldsa65(data: Seq<u8>, pk: Seq<u8>) -> core::result::Result<Seq<u8>, ErrorKind> {
    match spec_parse_cose(data) {
        Err(e) => Err(e),
        Ok(p) => if p.signature.len() != 3309 || !spec_mldsa65_sig_decodes(p.signature) {
            Err(ErrorKind::Crypto)
        } else if !spec_mldsa65_verify(pk, spec_to_be_signed(p.protected, p.unprotected, p.payload), p.signature) {
            Err(ErrorKind::InvalidSignature)
        } else {
            Ok(p.payload)
        },
    }
}

/// Signs `payload` with the ML-DSA-65 key of seed `sk` alone; a `Crypto`
/// error where signing gives up. Verifying the result under the key's
/// public key gives the payload back.
pub fn sign_mldsa65_only(payload: &[u8], sk: &[u8; 32]) -> (r: Result<Vec<u8>>)
    ensures
        match spec_sign_mldsa65(payload@, sk@) {
            Some(v) => r matches Ok(x) && x@ == v,
            None => r matches Err(e) && e.kind() == ErrorKind::Crypto,
        },
        payload@.len() <= MAX_BSTR_LENGTH ==> (r matches Ok(x) ==>
            spec_verify_mldsa65(x@, spec_mldsa65_public(sk@)) == Ok::<Seq<u8>, ErrorKind>(payload@)),
{
    let kid = mldsa65_public(sk);
    let protected = build_protected_header(ALG_MLDSA65, kid.as_slice());
    let unprotected: [u8; 1] = [0xa0];
    assert(unprotected@ =~= empty_map());
    let tbs = build_to_be_signed(protected.as_slice(), unprotected.as_slice(), payload);
    let sig = match mldsa65_sign(sk, tbs.as_slice()) {
        Some(m) => m,
        None => { return Err(crypto_error("ML-DSA-65 signing failed")); },
    };
    let out = build_envelope(protected.as_slice(), unprotected.as_slice(), payload, sig.as_slice());
    proof {
        if payload@.len() <= MAX_BSTR_LENGTH {
            lemma_empty_map_header_ok();
            crate::cbor::lemma_encode_head_len(MAJOR_BSTR, 1952);
            crate::cbor::lemma_encode_head_len(MAJOR_MAP, 2);
            crate::cbor::lemma_encode_head_len(MAJOR_UINT, 1);
            crate::cbor::lemma_encode_head_len(MAJOR_UINT, 4);
            crate::cbor::lemma_encode_head_len(crate::cbor::MAJOR_NINT, 37);
            lemma_parse_envelope(protected@, unprotected@, payload@, sig@);
        }
    }
    Ok(out)
}

/// Parses an envelope, verifies its ML-DSA-65 signature under `pubkey`
/// and returns the payload.
pub fn parse_and_verify_mldsa65_only(data: &[u8], pubkey: &[u8; 1952]) -> (r: Result<Vec<u8>>)
    ensures
        match spec_verify_mldsa65(data@, pubkey@) {
            Ok(pl) => r matches Ok(v) && v@ == pl,
            Err(k) => r matches Err(e) && e.kind() == k,
        },
{
    let (protected, unprotected, payload, signature) = parse_cose_sign1(data)?;
    if signature.len() != 3309 {
        return Err(crypto_error("invalid ML-DSA-65 signature encoding"));
    }
    let sig: [u8; 3309] = to_array(signature.as_slice());
    if !mldsa65_sig_decodes(&sig) {
        return Err(crypto_error("invalid ML-DSA-65 signature"));
    }
    let tbs = build_to_be_signed(protected.as_slice(), unprotected.as_slice(), payload.as_slice());
    if !mldsa65_verify(pubkey, tbs.as_slice(), &sig) {
        return Err(Error::InvalidSignature);
    }
    Ok(payload)
}

// ---------------------------------------------------------------------
// Key identifiers

/// Search for the `kid` (key 4) among `n` more entries of a protected
/// header at `off`; entries before it are skipped. The search stops when
/// the bytes run out.
pub open spec fn spec_find_kid(prot: Seq<u8>, off: int, n: nat) -> core::result::Result<Seq<u8>, ErrorKind>
    decreases n,
{
    if n == 0 || off < 0 || off >= prot.len() {
        Err(ErrorKind::Crypto)
    } else {
        match spec_decode_head(prot, off, 0) {
            None => Err(ErrorKind::Decode),
            Some((key, o)) => if key == 4 {
                match spec_decode_string(prot, o, 2) {
                    None => Err(ErrorKind::Decode),
                    Some((b, _)) => Ok(b),
                }
            } else {
                match spec_skip(prot, o, 0) {
                    None => Err(ErrorKind::Decode),
                    Some(o2) => spec_find_kid(prot, o2, (n - 1) as nat),
                }
            },
        }
    }
}

/// The `kid` of a protected header.
pub open spec fn spec_kid_of(prot: Seq<u8>) -> core::result::Result<Seq<u8>, ErrorKind> {
    match spec_decode_head(prot, 0, 5) {
        None => Err(ErrorKind::Decode),
        Some((n, o)) => spec_find_kid(prot, o, n as nat),
    }
}

/// Reads the `kid` of a protected header.
pub(crate) fn kid_from_protected(protected: &[u8]) -> (r: Result<Vec<u8>>)
    ensures
        match spec_kid_of(protected@) {
            Ok(k) => r matches Ok(v) && v@ == k,
            Err(k) => r matches Err(e) && e.kind() == k,
        },
{
    let mut offset: usize = 0;
    let map_len = decode_map_len(protected, &mut offset)?;
    let ghost o = offset as int;
    let mut i: u64 = 0;
    while i < map_len
        invariant
            i <= map_len,
            spec_decode_head(protected@, 0, 5) == Some((map_len, o)),
            spec_find_kid(protected@, o, map_len as nat) == spec_find_kid(protected@, offset as int, (map_len - i) as nat),
        decreases map_len - i,
    {
        if offset >= protected.len() {
            return Err(crypto_error("kid not found in protected header"));
        }
        let key = decode_uint(protected, &mut offset)?;
        if key == 4 {
            return decode_bstr(protected, &mut offset);
        }
        skip_value(protected, &mut offset)?;
        i = i + 1;
    }
    Err(crypto_error("kid not found in protected header"))
}

/// The `kid` of an envelope's protected header.
pub open spec fn spec_extract_kid(data: Seq<u8>) -> core::result::Result<Seq<u8>, ErrorKind> {
    match spec_parse_cose(data) {
        Err(e) => Err(e),
        Ok(p) => spec_kid_of(p.protected),
    }
}

/// Reads the key identifier (`kid`, key 4 of the protected header) of an
/// envelope.
pub fn extract_kid(data: &[u8]) -> (r: Result<Vec<u8>>)
    ensures
        match spec_extract_kid(data@) {
            Ok(k) => r matches Ok(v) && v@ == k,
            Err(k) => r matches Err(e) && e.kind() == k,
        },
{
    let (protected, _, _, _) = parse_cose_sign1(data)?;
    kid_from_protected(protected.as_slice())
}

// ---------------------------------------------------------------------
// Parsing what was built

/// Unprotected headers within the byte-string limit that parse back as
/// themselves wherever they stand (in data of addressable size).
pub open spec fn header_ok(u: Seq<u8>) -> bool {
    &&& u.len() <= MAX_BSTR_LENGTH
    &&& forall|data: Seq<u8>, off: int|
        0 <= off && off + u.len() <= data.len() && data.len() <= usize::MAX && data.subrange(off, off + u.len()) == u
            ==> #[trigger] spec_unprotected_end(data, off) == Ok::<int, ErrorKind>(off + u.len())
}

/// The empty map is a well-formed unprotected header.
pub proof fn lemma_empty_map_header_ok()
    ensures
        header_ok(empty_map()),
{
    assert forall|data: Seq<u8>, off: int|
        0 <= off && off + empty_map().len() <= data.len() && data.len() <= usize::MAX
            && data.subrange(off, off + empty_map().len()) == empty_map()
            implies #[trigger] spec_unprotected_end(data, off) == Ok::<int, ErrorKind>(off + empty_map().len()) by {
        assert(data[off] == data.subrange(off, off + 1)[0]);
        assert(spec_skip_n(data, off + 1, 0, 0) == Some(off + 1));
    }
}

proof fn lemma_envelope_layout(protected: Seq<u8>, unprotected: Seq<u8>, payload: Seq<u8>, signature: Seq<u8>)
    ensures
        ({
            let data = spec_envelope(protected, unprotected, payload, signature);
            let o2: int = 3int + spec_encode_bstr(protected).len();
            let o3: int = o2 + unprotected.len();
            let o4: int = o3 + spec_encode_bstr(payload).len();
            &&& data.len() == o4 + spec_encode_bstr(signature).len()
            &&& data[0] == 0xd8 && data[1] == 0x62 && data[2] == 0x84
            &&& data.subrange(3, o2) == spec_encode_bstr(protected)
            &&& data.subrange(o2, o3) == unprotected
            &&& data.subrange(o3, o4) == spec_encode_bstr(payload)
            &&& data.subrange(o4, data.len() as int) == spec_encode_bstr(signature)
        }),
{
    let data = spec_envelope(protected, unprotected, payload, signature);
    let t = seq![0xd8u8, 0x62];
    let a = spec_encode_head(MAJOR_ARRAY, 4);
    let bp = spec_encode_bstr(protected);
    let bl = spec_encode_bstr(payload);
    let bs = spec_encode_bstr(signature);
    assert(a =~= seq![0x84u8]);
    assert(data =~= t + a + bp + unprotected + bl + bs);
    assert(data.subrange(0, data.len() as int) =~= data);
    crate::cbor::lemma_split(data, 0, t + a + bp + unprotected + bl, bs);
    crate::cbor::lemma_split(data, 0, t + a + bp + unprotected, bl);
    crate::cbor::lemma_split(data, 0, t + a + bp, unprotected);
    crate::cbor::lemma_split(data, 0, t + a, bp);
    crate::cbor::lemma_split(data, 0, t, a);
    assert(data.subrange(0, 2)[0] == data[0]);
    assert(data.subrange(0, 2)[1] == data[1]);
    assert(data.subrange(2, 3)[0] == data[2]);
}

/// Parsing an envelope gives back its parts, for parts within the byte
/// string limit and a well-formed unprotected header.
#[verifier::spinoff_prover]
#[verifier::rlimit(60)]
pub proof fn lemma_parse_envelope(protected: Seq<u8>, unprotected: Seq<u8>, payload: Seq<u8>, signature: Seq<u8>)
    requires
        protected.len() <= crate::cbor::MAX_BSTR_LENGTH,
        payload.len() <= crate::cbor::MAX_BSTR_LENGTH,
        signature.len() <= crate::cbor::MAX_BSTR_LENGTH,
        header_ok(unprotected),
    ensures
        spec_parse_cose(spec_envelope(protected, unprotected, payload, signature))
            == Ok::<CoseParts, ErrorKind>(CoseParts { protected, unprotected, payload, signature }),
{
    let data = spec_envelope(protected, unprotected, payload, signature);
    lemma_envelope_layout(protected, unprotected, payload, signature);
    let o2: int = 3int + spec_encode_bstr(protected).len();
    let o3: int = o2 + unprotected.len();
    let o4: int = o3 + spec_encode_bstr(payload).len();
    assert(spec_cose_start(data) == Ok::<int, ErrorKind>(2));
    assert(spec_raw_arg(data, 3, 4) == Some((4nat, 3int)));
    crate::cbor::lemma_bstr_roundtrip(data, 3, protected, 2);
    crate::cbor::lemma_encode_head_len(MAJOR_BSTR, protected.len() as u64);
    crate::cbor::lemma_encode_head_len(MAJOR_BSTR, payload.len() as u64);
    crate::cbor::lemma_encode_head_len(MAJOR_BSTR, signature.len() as u64);
    assert(spec_unprotected_end(data, o2) == Ok::<int, ErrorKind>(o3)) by {
        assert(data.subrange(o2, o2 + unprotected.len()) == unprotected);
    }
    crate::cbor::lemma_bstr_roundtrip(data, o3, payload, 2);
    crate::cbor::lemma_bstr_roundtrip(data, o4, signature, 2);
}

} // verus!
