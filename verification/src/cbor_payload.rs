//! The statement payload and the recovery policy: deterministic CBOR
//! encoding, strict decoding, and the laws that tie them together.
use vstd::prelude::*;
use crate::cbor::{
    MAJOR_ARRAY, MAJOR_BSTR, MAJOR_MAP, MAJOR_UINT, MAX_MAP_ENTRIES, bounded_usize, decode_array_len,
    decode_bstr, decode_map_len, decode_uint, encode_bstr, encode_uint, encode_uint_head, skip_value,
    spec_decode_head, spec_decode_string, spec_encode_bstr, spec_encode_head, spec_skip,
};
use crate::cbor::{MAX_BSTR_LENGTH, lemma_bstr_roundtrip, lemma_head_roundtrip, lemma_split};
use crate::cbor::{head_error_text, skip_error_text, string_error_text};
use crate::cbor_value::{
    SpecValue, Value, decode_map_value, encode_map, encode_ordered, entries_model, extensions_decodable,
    lemma_map_value_roundtrip, lemma_normalize_entries_map, lemma_normalize_extensions_decodable,
    lemma_normalize_idempotent, lemma_sort_len, normalize, normalize_entries, sort_by_key,
    spec_decode_map_value, spec_encode_value, map_value_error_text,
};
use crate::error::{Error, ErrorKind, Result, decode_error, error_message, payload_error};
use crate::predicate::{Predicate, predicate_code, predicate_of_code};

verus! {

/// The statement payload: a deterministic CBOR map.
///
/// | key | field | type |
/// |-----|-------|------|
/// | 1 | `subject` | bstr .size 32 |
/// | 2 | `predicate` | uint 0..8 |
/// | 3 | `object` | bstr .size 32, optional |
/// | 4 | `timestamp` | uint, optional |
/// | 5 | `lineage` | bstr .size 32, optional |
/// | 6 | `nonce` | bstr .size 32, optional |
/// | 7 | `extensions` | map, optional |
/// | 8 | `anchor_hash` | bstr .size 32, optional |
/// | 10 | `recovery_policy` | bstr, optional |
#[derive(Debug, PartialEq)]
pub struct VeraxPayload {
    /// Subject identifier (32-byte hash of a key or artifact).
    pub subject: [u8; 32],
    /// Statement predicate.
    pub predicate: Predicate,
    /// Optional object identifier.
    pub object: Option<[u8; 32]>,
    /// Optional Unix timestamp in seconds.
    pub timestamp: Option<u64>,
    /// Optional hash of the parent statement.
    pub lineage: Option<[u8; 32]>,
    /// Optional replay-protection nonce.
    pub nonce: Option<[u8; 32]>,
    /// Optional Certificate-Transparency anchor hash.
    pub anchor_hash: Option<[u8; 32]>,
    /// Optional application-specific extensions.
    pub extensions: Option<Vec<(u64, Value)>>,
    /// Optional encoded [`RecoveryPolicy`].
    pub recovery_policy: Option<Vec<u8>>,
}

/// The name the payload carries in the Axiom flavour of the protocol.
pub type AxiomPayload = VeraxPayload;

/// Mathematical model of a payload.
pub struct PayloadModel {
    pub subject: Seq<u8>,
    pub predicate: Predicate,
    pub object: Option<Seq<u8>>,
    pub timestamp: Option<u64>,
    pub lineage: Option<Seq<u8>>,
    pub nonce: Option<Seq<u8>>,
    pub anchor_hash: Option<Seq<u8>>,
    pub extensions: Option<Seq<(u64, SpecValue)>>,
    pub recovery_policy: Option<Seq<u8>>,
}

/// View of an optional 32-byte array.
pub open spec fn opt32(o: Option<[u8; 32]>) -> Option<Seq<u8>> {
    match o {
        Some(a) => Some(a@),
        None => None,
    }
}

/// View of optional bytes.
pub open spec fn opt_bytes(o: Option<Vec<u8>>) -> Option<Seq<u8>> {
    match o {
        Some(a) => Some(a@),
        None => None,
    }
}

/// View of optional extension entries.
pub open spec fn opt_entries(o: Option<Vec<(u64, Value)>>) -> Option<Seq<(u64, SpecValue)>> {
    match o {
        Some(es) => Some(entries_model(es@)),
        None => None,
    }
}

impl View for VeraxPayload {
    type V = PayloadModel;

    open spec fn view(&self) -> PayloadModel {
        PayloadModel {
            subject: self.subject@,
            predicate: self.predicate,
            object: opt32(self.object),
            timestamp: self.timestamp,
            lineage: opt32(self.lineage),
            nonce: opt32(self.nonce),
            anchor_hash: opt32(self.anchor_hash),
            extensions: opt_entries(self.extensions),
            recovery_policy: opt_bytes(self.recovery_policy),
        }
    }
}

// ---------------------------------------------------------------------
// Encoding

/// Encoding of an optional byte-string field with key `key`.
pub open spec fn field_bstr(key: u64, b: Option<Seq<u8>>) -> Seq<u8> {
    match b {
        Some(x) => spec_encode_head(MAJOR_UINT, key) + spec_encode_bstr(x),
        None => Seq::empty(),
    }
}

/// Encoding of an optional unsigned-integer field with key `key`.
pub open spec fn field_uint(key: u64, v: Option<u64>) -> Seq<u8> {
    match v {
        Some(x) => spec_encode_head(MAJOR_UINT, key) + spec_encode_head(MAJOR_UINT, x),
        None => Seq::empty(),
    }
}

/// Whether the extensions are written out (present and not empty).
pub open spec fn has_extensions(e: Option<Seq<(u64, SpecValue)>>) -> bool {
    e matches Some(es) && es.len() > 0
}

/// Encoding of the extensions field (key 7); empty extensions are omitted.
pub open spec fn field_extensions(e: Option<Seq<(u64, SpecValue)>>) -> Seq<u8> {
    if has_extensions(e) {
        spec_encode_head(MAJOR_UINT, 7) + spec_encode_value(SpecValue::Mapping(e.unwrap()))
    } else {
        Seq::empty()
    }
}

/// Number of entries of the encoded payload map.
pub open spec fn field_count(p: PayloadModel) -> nat {
    2 + (if p.object is Some { 1nat } else { 0 }) + (if p.timestamp is Some { 1nat } else { 0 })
        + (if p.lineage is Some { 1nat } else { 0 }) + (if p.nonce is Some { 1nat } else { 0 })
        + (if has_extensions(p.extensions) { 1nat } else { 0 })
        + (if p.anchor_hash is Some { 1nat } else { 0 })
        + (if p.recovery_policy is Some { 1nat } else { 0 })
}

/// Deterministic encoding of a payload: a map whose keys appear in
/// ascending order, every integer in shortest form.
pub open spec fn spec_encode_payload(p: PayloadModel) -> Seq<u8> {
    spec_encode_head(MAJOR_MAP, field_count(p) as u64)
        + spec_encode_head(MAJOR_UINT, 1) + spec_encode_bstr(p.subject)
        + spec_encode_head(MAJOR_UINT, 2) + spec_encode_head(MAJOR_UINT, predicate_code(p.predicate) as u64)
        + field_bstr(3, p.object)
        + field_uint(4, p.timestamp)
        + field_bstr(5, p.lineage)
        + field_bstr(6, p.nonce)
        + field_extensions(p.extensions)
        + field_bstr(8, p.anchor_hash)
        + field_bstr(10, p.recovery_policy)
}

fn encode_field_array(buf: &mut Vec<u8>, key: u64, v: &Option<[u8; 32]>)
    ensures
        final(buf)@ == old(buf)@ + field_bstr(key, opt32(*v)),
{
    match v {
        Some(a) => {
            encode_uint(buf, key);
            encode_bstr(buf, a.as_slice());
            assert(final(buf)@ =~= old(buf)@ + field_bstr(key, opt32(*v)));
        },
        None => {
            assert(final(buf)@ =~= old(buf)@ + field_bstr(key, opt32(*v)));
        },
    }
}

fn encode_field_uint(buf: &mut Vec<u8>, key: u64, v: Option<u64>)
    ensures
        final(buf)@ == old(buf)@ + field_uint(key, v),
{
    match v {
        Some(x) => {
            encode_uint(buf, key);
            encode_uint(buf, x);
        },
        None => {},
    }
    assert(final(buf)@ =~= old(buf)@ + field_uint(key, v));
}

fn encode_field_bytes(buf: &mut Vec<u8>, key: u64, v: &Option<Vec<u8>>)
    ensures
        final(buf)@ == old(buf)@ + field_bstr(key, opt_bytes(*v)),
{
    match v {
        Some(x) => {
            encode_uint(buf, key);
            encode_bstr(buf, x.as_slice());
        },
        None => {},
    }
    assert(final(buf)@ =~= old(buf)@ + field_bstr(key, opt_bytes(*v)));
}

fn encode_field_extensions(buf: &mut Vec<u8>, v: &Option<Vec<(u64, Value)>>)
    ensures
        final(buf)@ == old(buf)@ + field_extensions(opt_entries(*v)),
{
    match v {
        Some(es) => {
            proof {
                crate::cbor_value::lemma_entries_model_index(es@);
            }
            if es.len() > 0 {
                encode_uint(buf, 7);
                encode_map(buf, es);
            }
        },
        None => {},
    }
    assert(final(buf)@ =~= old(buf)@ + field_extensions(opt_entries(*v)));
}

fn field_count_exec(payload: &VeraxPayload) -> (c: u64)
    ensures
        c == field_count(payload@),
{
    let has_ext = match &payload.extensions {
        Some(es) => es.len() > 0,
        None => false,
    };
    proof {
        if let Some(es) = &payload.extensions {
            crate::cbor_value::lemma_entries_model_index(es@);
        }
    }
    let mut count: u64 = 2;
    if payload.object.is_some() { count = count + 1; }
    if payload.timestamp.is_some() { count = count + 1; }
    if payload.lineage.is_some() { count = count + 1; }
    if payload.nonce.is_some() { count = count + 1; }
    if has_ext { count = count + 1; }
    if payload.anchor_hash.is_some() { count = count + 1; }
    if payload.recovery_policy.is_some() { count = count + 1; }
    count
}

/// Serialises a payload to deterministic CBOR.
pub fn encode_payload(payload: &VeraxPayload) -> (r: Vec<u8>)
    ensures
        r@ == spec_encode_payload(payload@),
{
    let count = field_count_exec(payload);
    let mut buf: Vec<u8> = Vec::new();
    encode_uint_head(&mut buf, MAJOR_MAP, count);
    assert(buf@ =~= spec_encode_head(MAJOR_MAP, field_count(payload@) as u64));
    encode_uint(&mut buf, 1);
    encode_bstr(&mut buf, payload.subject.as_slice());
    encode_uint(&mut buf, 2);
    encode_uint(&mut buf, payload.predicate.to_u8() as u64);
    encode_field_array(&mut buf, 3, &payload.object);
    encode_field_uint(&mut buf, 4, payload.timestamp);
    encode_field_array(&mut buf, 5, &payload.lineage);
    encode_field_array(&mut buf, 6, &payload.nonce);
    encode_field_extensions(&mut buf, &payload.extensions);
    encode_field_array(&mut buf, 8, &payload.anchor_hash);
    encode_field_bytes(&mut buf, 10, &payload.recovery_policy);
    buf
}

// ---------------------------------------------------------------------
// Decoding

/// Fields read so far while decoding a payload.
pub struct DecodeState {
    pub subject: Option<Seq<u8>>,
    pub predicate: Option<u8>,
    pub object: Option<Seq<u8>>,
    pub timestamp: Option<u64>,
    pub lineage: Option<Seq<u8>>,
    pub nonce: Option<Seq<u8>>,
    pub anchor_hash: Option<Seq<u8>>,
    pub extensions: Option<Seq<(u64, SpecValue)>>,
    pub recovery_policy: Option<Seq<u8>>,
}

/// Nothing read yet.
pub open spec fn empty_state() -> DecodeState {
    DecodeState {
        subject: None,
        predicate: None,
        object: None,
        timestamp: None,
        lineage: None,
        nonce: None,
        anchor_hash: None,
        extensions: None,
        recovery_policy: None,
    }
}

/// Decoding of a byte string that must be 32 bytes long.
pub open spec fn spec_decode_bytes32(data: Seq<u8>, off: int) -> core::result::Result<(Seq<u8>, int), ErrorKind> {
    match spec_decode_string(data, off, 2) {
        None => Err(ErrorKind::Decode),
        Some((b, o)) => if b.len() != 32 { Err(ErrorKind::Payload) } else { Ok((b, o)) },
    }
}

/// The state `st` with the 32-byte field of key `key` set to `b`.
pub open spec fn with_bytes(st: DecodeState, key: u64, b: Seq<u8>) -> DecodeState {
    if key == 1 {
        DecodeState { subject: Some(b), ..st }
    } else if key == 3 {
        DecodeState { object: Some(b), ..st }
    } else if key == 5 {
        DecodeState { lineage: Some(b), ..st }
    } else if key == 6 {
        DecodeState { nonce: Some(b), ..st }
    } else {
        DecodeState { anchor_hash: Some(b), ..st }
    }
}

/// Decoding of the value of field `key` at `off` into the state `st`.
pub open spec fn spec_decode_field(data: Seq<u8>, off: int, key: u64, st: DecodeState)
    -> core::result::Result<(DecodeState, int), ErrorKind>
{
    if key == 1 || key == 3 || key == 5 || key == 6 || key == 8 {
        match spec_decode_bytes32(data, off) {
            Err(e) => Err(e),
            Ok((b, o)) => Ok((with_bytes(st, key, b), o)),
        }
    } else if key == 2 {
        match spec_decode_head(data, off, 0) {
            None => Err(ErrorKind::Decode),
            Some((v, o)) => if v > 8 { Err(ErrorKind::Payload) } else {
                Ok((DecodeState { predicate: Some(v as u8), ..st }, o))
            },
        }
    } else if key == 4 {
        match spec_decode_head(data, off, 0) {
            None => Err(ErrorKind::Decode),
            Some((v, o)) => Ok((DecodeState { timestamp: Some(v), ..st }, o)),
        }
    } else if key == 7 {
        match spec_decode_map_value(data, off, 0) {
            Err(e) => Err(e),
            Ok((es, o)) => Ok((DecodeState { extensions: Some(es), ..st }, o)),
        }
    } else if key == 10 {
        match spec_decode_string(data, off, 2) {
            None => Err(ErrorKind::Decode),
            Some((b, o)) => Ok((DecodeState { recovery_policy: Some(b), ..st }, o)),
        }
    } else if key < 100 {
        Err(ErrorKind::Payload)
    } else {
        match spec_skip(data, off, 0) {
            None => Err(ErrorKind::Decode),
            Some(o) => Ok((st, o)),
        }
    }
}

/// Decoding of `n` more map entries at `off`; keys must increase strictly
/// after `prev`.
pub open spec fn spec_decode_fields(data: Seq<u8>, off: int, n: nat, prev: u64, st: DecodeState)
    -> core::result::Result<(DecodeState, int), ErrorKind>
    decreases n,
{
    if n == 0 {
        Ok((st, off))
    } else {
        match spec_decode_head(data, off, 0) {
            None => Err(ErrorKind::Decode),
            Some((key, o)) => if key <= prev {
                Err(ErrorKind::NonCanonicalEncoding)
            } else {
                match spec_decode_field(data, o, key, st) {
                    Err(e) => Err(e),
                    Ok((st2, o2)) => spec_decode_fields(data, o2, (n - 1) as nat, key, st2),
                }
            },
        }
    }
}

/// Strict decoding of a payload: a map of at most `MAX_MAP_ENTRIES`
/// entries in strictly ascending key order, known keys with values of the
/// right type and size, unknown keys from 100 up skipped, no trailing data,
/// subject and predicate present.
pub open spec fn spec_decode_payload(data: Seq<u8>) -> core::result::Result<PayloadModel, ErrorKind> {
    match spec_decode_head(data, 0, 5) {
        None => Err(ErrorKind::Decode),
        Some((n, o)) => if n > MAX_MAP_ENTRIES {
            Err(ErrorKind::Decode)
        } else {
            match spec_decode_fields(data, o, n as nat, 0, empty_state()) {
                Err(e) => Err(e),
                Ok((st, off)) => if off < data.len() {
                    Err(ErrorKind::Payload)
                } else if st.subject is None || st.predicate is None {
                    Err(ErrorKind::Payload)
                } else {
                    Ok(PayloadModel {
                        subject: st.subject.unwrap(),
                        predicate: predicate_of_code(st.predicate.unwrap()),
                        object: st.object,
                        timestamp: st.timestamp,
                        lineage: st.lineage,
                        nonce: st.nonce,
                        anchor_hash: st.anchor_hash,
                        extensions: st.extensions,
                        recovery_policy: st.recovery_policy,
                    })
                },
            }
        },
    }
}

/// The message of a 32-byte string that cannot be read at `off`; `what`
/// names the field when the string has another length.
pub open spec fn bytes32_error_text(data: Seq<u8>, off: int, what: Seq<char>) -> Seq<char> {
    match spec_decode_string(data, off, 2) {
        None => string_error_text(data, off, 2),
        Some(_) => what,
    }
}

/// The message that names the 32-byte field of key `key` with a wrong length.
pub open spec fn field_length_text(key: u64) -> Seq<char> {
    if key == 1 {
        "subject must be 32 bytes"@
    } else if key == 3 {
        "object must be 32 bytes"@
    } else if key == 5 {
        "lineage must be 32 bytes"@
    } else if key == 6 {
        "nonce must be 32 bytes"@
    } else {
        "anchor_hash must be 32 bytes"@
    }
}

/// The message of the value of field `key` that cannot be read at `off`.
pub open spec fn field_error_text(data: Seq<u8>, off: int, key: u64) -> Seq<char> {
    if key == 1 || key == 3 || key == 5 || key == 6 || key == 8 {
        bytes32_error_text(data, off, field_length_text(key))
    } else if key == 2 {
        match spec_decode_head(data, off, 0) {
            None => head_error_text(data, off, 0),
            Some(_) => "invalid predicate"@,
        }
    } else if key == 4 {
        head_error_text(data, off, 0)
    } else if key == 7 {
        map_value_error_text(data, off, 0)
    } else if key == 10 {
        string_error_text(data, off, 2)
    } else if key < 100 {
        "unknown reserved key"@
    } else {
        skip_error_text(data, off, 0)
    }
}

/// The message of the first of `n` payload entries at `off` that cannot be
/// read (empty where the keys are out of order: that error has no message).
pub open spec fn fields_error_text(data: Seq<u8>, off: int, n: nat, prev: u64, st: DecodeState) -> Seq<char>
    decreases n,
{
    if n == 0 {
        Seq::empty()
    } else {
        match spec_decode_head(data, off, 0) {
            None => head_error_text(data, off, 0),
            Some((key, o)) => if key <= prev {
                Seq::empty()
            } else {
                match spec_decode_field(data, o, key, st) {
                    Err(_) => field_error_text(data, o, key),
                    Ok((st2, o2)) => fields_error_text(data, o2, (n - 1) as nat, key, st2),
                }
            },
        }
    }
}

/// The message of the error that decoding `data` as a payload gives.
pub closed spec fn payload_error_text(data: Seq<u8>) -> Seq<char> {
    match spec_decode_head(data, 0, 5) {
        None => head_error_text(data, 0, 5),
        Some((n, o)) => if n > MAX_MAP_ENTRIES {
            "length exceeds maximum"@
        } else {
            match spec_decode_fields(data, o, n as nat, 0, empty_state()) {
                Err(_) => fields_error_text(data, o, n as nat, 0, empty_state()),
                Ok((st, off)) => if off < data.len() {
                    "trailing data after payload"@
                } else if st.subject is None {
                    "missing required field: subject"@
                } else {
                    "missing required field: predicate"@
                },
            }
        },
    }
}

struct FieldState {
    subject: Option<[u8; 32]>,
    predicate: Option<u8>,
    object: Option<[u8; 32]>,
    timestamp: Option<u64>,
    lineage: Option<[u8; 32]>,
    nonce: Option<[u8; 32]>,
    anchor_hash: Option<[u8; 32]>,
    extensions: Option<Vec<(u64, Value)>>,
    recovery_policy: Option<Vec<u8>>,
}

impl FieldState {
    spec fn state(&self) -> DecodeState {
        DecodeState {
            subject: opt32(self.subject),
            predicate: self.predicate,
            object: opt32(self.object),
            timestamp: self.timestamp,
            lineage: opt32(self.lineage),
            nonce: opt32(self.nonce),
            anchor_hash: opt32(self.anchor_hash),
            extensions: opt_entries(self.extensions),
            recovery_policy: opt_bytes(self.recovery_policy),
        }
    }
}

/// Copies exactly 32 bytes into an array.
pub fn to_array32(b: &[u8]) -> (r: [u8; 32])
    requires
        b@.len() == 32,
    ensures
        r@ == b@,
{
    let mut a = [0u8; 32];
    let mut i: usize = 0;
    while i < 32
        invariant
            i <= 32,
            b@.len() == 32,
            forall|j: int| 0 <= j < i ==> a@[j] == b@[j],
        decreases 32 - i,
    {
        a.set(i, b[i]);
        i = i + 1;
    }
    assert(a@ =~= b@);
    a
}

fn decode_bytes32(data: &[u8], offset: &mut usize, what: &str) -> (r: Result<[u8; 32]>)
    ensures
        match spec_decode_bytes32(data@, *old(offset) as int) {
            Ok((b, o)) => r matches Ok(a) && a@ == b && *final(offset) == o,
            Err(k) => r matches Err(e) && e.kind() == k
                && error_message(e) == bytes32_error_text(data@, *old(offset) as int, what@),
        },
{
    let b = decode_bstr(data, offset)?;
    if b.len() != 32 {
        return Err(payload_error(what));
    }
    Ok(to_array32(b.as_slice()))
}

fn decode_field(data: &[u8], offset: &mut usize, key: u64, st: &mut FieldState) -> (r: Result<()>)
    ensures
        match spec_decode_field(data@, *old(offset) as int, key, old(st).state()) {
            Ok((s2, o)) => r is Ok && final(st).state() == s2 && *final(offset) == o,
            Err(k) => r matches Err(e) && e.kind() == k
                && error_message(e) == field_error_text(data@, *old(offset) as int, key),
        },
{
    if key == 1 {
        st.subject = Some(decode_bytes32(data, offset, "subject must be 32 bytes")?);
    } else if key == 2 {
        let v = decode_uint(data, offset)?;
        if v > 8 {
            return Err(payload_error("invalid predicate"));
        }
        st.predicate = Some(v as u8);
    } else if key == 3 {
        st.object = Some(decode_bytes32(data, offset, "object must be 32 bytes")?);
    } else if key == 4 {
        st.timestamp = Some(decode_uint(data, offset)?);
    } else if key == 5 {
        st.lineage = Some(decode_bytes32(data, offset, "lineage must be 32 bytes")?);
    } else if key == 6 {
        st.nonce = Some(decode_bytes32(data, offset, "nonce must be 32 bytes")?);
    } else if key == 8 {
        st.anchor_hash = Some(decode_bytes32(data, offset, "anchor_hash must be 32 bytes")?);
    } else if key == 7 {
        st.extensions = Some(decode_map_value(data, offset)?);
    } else if key == 10 {
        st.recovery_policy = Some(decode_bstr(data, offset)?);
    } else if key < 100 {
        return Err(payload_error("unknown reserved key"));
    } else {
        skip_value(data, offset)?;
    }
    Ok(())
}

/// Parses and validates a deterministic CBOR payload.
pub fn decode_payload(data: &[u8]) -> (r: Result<VeraxPayload>)
    ensures
        match spec_decode_payload(data@) {
            Ok(m) => r matches Ok(p) && p@ == m,
            Err(k) => r matches Err(e) && e.kind() == k && error_message(e) == payload_error_text(data@),
        },
{
    let mut offset: usize = 0;
    let raw_len = decode_map_len(data, &mut offset)?;
    let map_len = bounded_usize(raw_len, MAX_MAP_ENTRIES)?;
    let mut st = FieldState {
        subject: None,
        predicate: None,
        object: None,
        timestamp: None,
        lineage: None,
        nonce: None,
        anchor_hash: None,
        extensions: None,
        recovery_policy: None,
    };
    let ghost o1 = offset as int;
    let mut prev_key: u64 = 0;
    let mut i: usize = 0;
    assert(st.state() == empty_state());
    while i < map_len
        invariant
            i <= map_len,
            map_len == raw_len,
            raw_len <= MAX_MAP_ENTRIES,
            st.predicate matches Some(v) ==> v <= 8,
            spec_decode_head(data@, 0, 5) == Some((raw_len, o1)),
            spec_decode_fields(data@, o1, map_len as nat, 0, empty_state())
                == spec_decode_fields(data@, offset as int, (map_len - i) as nat, prev_key, st.state()),
            fields_error_text(data@, o1, map_len as nat, 0, empty_state())
                == fields_error_text(data@, offset as int, (map_len - i) as nat, prev_key, st.state()),
        decreases map_len - i,
    {
        let key = decode_uint(data, &mut offset)?;
        if key <= prev_key {
            return Err(Error::NonCanonicalEncoding);
        }
        decode_field(data, &mut offset, key, &mut st)?;
        prev_key = key;
        i = i + 1;
    }
    if offset < data.len() {
        return Err(payload_error("trailing data after payload"));
    }
    let subject = match st.subject {
        Some(s) => s,
        None => { return Err(payload_error("missing required field: subject")); },
    };
    let predicate = match st.predicate {
        Some(p) => p,
        None => { return Err(payload_error("missing required field: predicate")); },
    };
    let predicate = match Predicate::from_u8(predicate) {
        Ok(p) => p,
        Err(e) => { return Err(e); },
    };
    Ok(VeraxPayload {
        subject,
        predicate,
        object: st.object,
        timestamp: st.timestamp,
        lineage: st.lineage,
        nonce: st.nonce,
        anchor_hash: st.anchor_hash,
        extensions: st.extensions,
        recovery_policy: st.recovery_policy,
    })
}


// ---------------------------------------------------------------------
// Payload methods and the determinism check

impl VeraxPayload {
    /// A payload with the two required fields and every optional field absent.
    pub fn new(subject: [u8; 32], predicate: Predicate) -> (r: Self)
        ensures
            r.subject == subject,
            r.predicate == predicate,
            r.object is None,
            r.timestamp is None,
            r.lineage is None,
            r.nonce is None,
            r.anchor_hash is None,
            r.extensions is None,
            r.recovery_policy is None,
    {
        VeraxPayload {
            subject,
            predicate,
            object: None,
            timestamp: None,
            lineage: None,
            nonce: None,
            anchor_hash: None,
            extensions: None,
            recovery_policy: None,
        }
    }

    /// Deterministic CBOR encoding of this payload (see [`encode_payload`]).
    pub fn encode(&self) -> (r: Vec<u8>)
        ensures
            r@ == spec_encode_payload(self@),
    {
        encode_payload(self)
    }

    /// Strict decoding of a payload (see [`decode_payload`]).
    pub fn decode(data: &[u8]) -> (r: Result<Self>)
        ensures
            match spec_decode_payload(data@) {
                Ok(m) => r matches Ok(p) && p@ == m,
                Err(k) => r matches Err(e) && e.kind() == k && error_message(e) == payload_error_text(data@),
            },
    {
        decode_payload(data)
    }
}

/// Whether two byte sequences are equal.
pub fn bytes_eq(a: &[u8], b: &[u8]) -> (r: bool)
    ensures
        r == (a@ == b@),
{
    if a.len() != b.len() {
        return false;
    }
    let mut i: usize = 0;
    while i < a.len()
        invariant
            a@.len() == b@.len(),
            i <= a@.len(),
            forall|j: int| 0 <= j < i ==> a@[j] == b@[j],
        decreases a@.len() - i,
    {
        if a[i] != b[i] {
            return false;
        }
        i = i + 1;
    }
    assert(a@ =~= b@);
    true
}

/// Bytes in the strict deterministic form: they decode as a payload, and
/// encoding that payload gives the same bytes again.
pub open spec fn spec_is_strictly_deterministic(data: Seq<u8>) -> bool {
    match spec_decode_payload(data) {
        Ok(m) => spec_encode_payload(m) == data,
        Err(_) => false,
    }
}

/// Checks that `data` is a payload in strict deterministic form: it
/// decodes, and re-encoding the result reproduces it byte for byte.
pub fn is_strictly_deterministic(data: &[u8]) -> (r: bool)
    ensures
        r == spec_is_strictly_deterministic(data@),
{
    match decode_payload(data) {
        Ok(payload) => {
            let re = payload.encode();
            bytes_eq(re.as_slice(), data)
        },
        Err(_) => false,
    }
}

// ---------------------------------------------------------------------
// Recovery policy

/// Key-recovery policy carried by `Recovers` statements.
///
/// ```cddl
/// RecoveryPolicy = {
///   1: [* bstr .size 32],   ; guardians
///   2: uint,                ; threshold
///   ? 3: uint,              ; recovery_delay
/// }
/// ```
#[derive(Debug, Clone, PartialEq)]
pub struct RecoveryPolicy {
    /// Hashes of the guardians' public keys.
    pub guardians: Vec<[u8; 32]>,
    /// Number of guardian approvals required.
    pub threshold: u64,
    /// Optional delay in seconds before recovery takes effect.
    pub recovery_delay: Option<u64>,
}

/// Mathematical model of a recovery policy.
pub struct RecoveryPolicyModel {
    pub guardians: Seq<Seq<u8>>,
    pub threshold: u64,
    pub recovery_delay: Option<u64>,
}

impl View for RecoveryPolicy {
    type V = RecoveryPolicyModel;

    open spec fn view(&self) -> RecoveryPolicyModel {
        RecoveryPolicyModel {
            guardians: self.guardians@.map_values(|g: [u8; 32]| g@),
            threshold: self.threshold,
            recovery_delay: self.recovery_delay,
        }
    }
}

/// Concatenated byte-string encodings of the guardian hashes.
pub open spec fn encode_guardians(gs: Seq<Seq<u8>>) -> Seq<u8>
    decreases gs.len(),
{
    if gs.len() == 0 {
        Seq::empty()
    } else {
        spec_encode_bstr(gs[0]) + encode_guardians(gs.drop_first())
    }
}

pub proof fn lemma_encode_guardians_push(gs: Seq<Seq<u8>>, g: Seq<u8>)
    ensures
        encode_guardians(gs.push(g)) == encode_guardians(gs) + spec_encode_bstr(g),
    decreases gs.len(),
{
    if gs.len() == 0 {
        let t = gs.push(g);
        assert(t[0] == g);
        assert(t.drop_first() =~= Seq::<Seq<u8>>::empty());
        assert(encode_guardians(t.drop_first()) == Seq::<u8>::empty());
        assert(encode_guardians(gs) == Seq::<u8>::empty());
        assert(encode_guardians(t) =~= encode_guardians(gs) + spec_encode_bstr(g));
    } else {
        lemma_encode_guardians_push(gs.drop_first(), g);
        assert(gs.push(g).drop_first() =~= gs.drop_first().push(g));
        assert(encode_guardians(gs.push(g)) =~= encode_guardians(gs) + spec_encode_bstr(g));
    }
}

/// Deterministic encoding of a recovery policy: a map with keys 1
/// (guardian array), 2 (threshold) and, when set, 3 (delay).
pub open spec fn spec_encode_policy(m: RecoveryPolicyModel) -> Seq<u8> {
    spec_encode_head(MAJOR_MAP, if m.recovery_delay is Some { 3 } else { 2 })
        + spec_encode_head(MAJOR_UINT, 1) + spec_encode_head(MAJOR_ARRAY, m.guardians.len() as u64)
        + encode_guardians(m.guardians)
        + spec_encode_head(MAJOR_UINT, 2) + spec_encode_head(MAJOR_UINT, m.threshold)
        + policy_delay(m.recovery_delay)
}

/// Fields of a recovery policy read so far.
pub struct PolicyState {
    pub guardians: Option<Seq<Seq<u8>>>,
    pub threshold: Option<u64>,
    pub recovery_delay: Option<u64>,
}

/// Decoding of `n` more 32-byte guardian hashes at `off`, after `acc`.
pub open spec fn spec_decode_guardians(data: Seq<u8>, off: int, n: nat, acc: Seq<Seq<u8>>)
    -> core::result::Result<(Seq<Seq<u8>>, int), ErrorKind>
    decreases n,
{
    if n == 0 {
        Ok((acc, off))
    } else {
        match spec_decode_bytes32(data, off) {
            Err(e) => Err(e),
            Ok((b, o)) => spec_decode_guardians(data, o, (n - 1) as nat, acc.push(b)),
        }
    }
}

/// Decoding of one policy entry's value for key `key` at `off`; unknown
/// keys are skipped, a repeated key overrides the earlier value.
pub open spec fn spec_decode_policy_field(data: Seq<u8>, off: int, key: u64, st: PolicyState)
    -> core::result::Result<(PolicyState, int), ErrorKind>
{
    if key == 1 {
        match spec_decode_head(data, off, 4) {
            None => Err(ErrorKind::Decode),
            Some((n, o)) => if n > MAX_MAP_ENTRIES {
                Err(ErrorKind::Decode)
            } else {
                match spec_decode_guardians(data, o, n as nat, Seq::empty()) {
                    Err(e) => Err(e),
                    Ok((gs, o2)) => Ok((PolicyState { guardians: Some(gs), ..st }, o2)),
                }
            },
        }
    } else if key == 2 {
        match spec_decode_head(data, off, 0) {
            None => Err(ErrorKind::Decode),
            Some((v, o)) => Ok((PolicyState { threshold: Some(v), ..st }, o)),
        }
    } else if key == 3 {
        match spec_decode_head(data, off, 0) {
            None => Err(ErrorKind::Decode),
            Some((v, o)) => Ok((PolicyState { recovery_delay: Some(v), ..st }, o)),
        }
    } else {
        match spec_skip(data, off, 0) {
            None => Err(ErrorKind::Decode),
            Some(o) => Ok((st, o)),
        }
    }
}

/// Decoding of `n` more policy entries at `off`.
pub open spec fn spec_decode_policy_entries(data: Seq<u8>, off: int, n: nat, st: PolicyState)
    -> core::result::Result<(PolicyState, int), ErrorKind>
    decreases n,
{
    if n == 0 {
        Ok((st, off))
    } else {
        match spec_decode_head(data, off, 0) {
            None => Err(ErrorKind::Decode),
            Some((key, o)) => match spec_decode_policy_field(data, o, key, st) {
                Err(e) => Err(e),
                Ok((st2, o2)) => spec_decode_policy_entries(data, o2, (n - 1) as nat, st2),
            },
        }
    }
}

/// Decoding of a recovery policy: a map whose guardian hashes are 32 bytes
/// each and in which guardians and threshold are present. Key order is
/// not checked, and bytes after the map are ignored.
pub open spec fn spec_decode_policy(data: Seq<u8>) -> core::result::Result<RecoveryPolicyModel, ErrorKind> {
    match spec_decode_head(data, 0, 5) {
        None => Err(ErrorKind::Decode),
        Some((n, o)) => match spec_decode_policy_entries(
            data, o, n as nat, PolicyState { guardians: None, threshold: None, recovery_delay: None }) {
            Err(e) => Err(e),
            Ok((st, _)) => if st.guardians is None || st.threshold is None {
                Err(ErrorKind::Payload)
            } else {
                Ok(RecoveryPolicyModel {
                    guardians: st.guardians.unwrap(),
                    threshold: st.threshold.unwrap(),
                    recovery_delay: st.recovery_delay,
                })
            },
        },
    }
}

struct PolicyFields {
    guardians: Option<Vec<[u8; 32]>>,
    threshold: Option<u64>,
    recovery_delay: Option<u64>,
}

impl PolicyFields {
    spec fn state(&self) -> PolicyState {
        PolicyState {
            guardians: match self.guardians {
                Some(gs) => Some(gs@.map_values(|g: [u8; 32]| g@)),
                None => None,
            },
            threshold: self.threshold,
            recovery_delay: self.recovery_delay,
        }
    }
}

fn decode_guardians(data: &[u8], offset: &mut usize, n: usize) -> (r: Result<Vec<[u8; 32]>>)
    ensures
        match spec_decode_guardians(data@, *old(offset) as int, n as nat, Seq::empty()) {
            Ok((gs, o)) => r matches Ok(v) && v@.map_values(|g: [u8; 32]| g@) == gs && *final(offset) == o,
            Err(k) => r matches Err(e) && e.kind() == k,
        },
{
    let mut gs: Vec<[u8; 32]> = Vec::new();
    let mut i: usize = 0;
    let ghost o0 = *offset as int;
    assert(gs@.map_values(|g: [u8; 32]| g@) =~= Seq::<Seq<u8>>::empty());
    while i < n
        invariant
            i <= n,
            gs@.len() == i,
            o0 == *old(offset) as int,
            spec_decode_guardians(data@, o0, n as nat, Seq::empty())
                == spec_decode_guardians(data@, *offset as int, (n - i) as nat, gs@.map_values(|g: [u8; 32]| g@)),
        decreases n - i,
    {
        let g = decode_bytes32(data, offset, "guardian hash must be 32 bytes")?;
        proof {
            assert(gs@.push(g).map_values(|g: [u8; 32]| g@) =~= gs@.map_values(|g: [u8; 32]| g@).push(g@));
        }
        gs.push(g);
        i = i + 1;
    }
    Ok(gs)
}

fn decode_policy_field(data: &[u8], offset: &mut usize, key: u64, st: &mut PolicyFields) -> (r: Result<()>)
    ensures
        match spec_decode_policy_field(data@, *old(offset) as int, key, old(st).state()) {
            Ok((s2, o)) => r is Ok && final(st).state() == s2 && *final(offset) == o,
            Err(k) => r matches Err(e) && e.kind() == k,
        },
{
    if key == 1 {
        let raw = decode_array_len(data, offset)?;
        let n = bounded_usize(raw, MAX_MAP_ENTRIES)?;
        let gs = decode_guardians(data, offset, n)?;
        st.guardians = Some(gs);
    } else if key == 2 {
        st.threshold = Some(decode_uint(data, offset)?);
    } else if key == 3 {
        st.recovery_delay = Some(decode_uint(data, offset)?);
    } else {
        skip_value(data, offset)?;
    }
    Ok(())
}

impl RecoveryPolicy {
    /// Deterministic CBOR encoding of this policy.
    pub fn encode(&self) -> (r: Vec<u8>)
        ensures
            r@ == spec_encode_policy(self@),
    {
        let mut buf: Vec<u8> = Vec::new();
        let count: u64 = if self.recovery_delay.is_some() { 3 } else { 2 };
        encode_uint_head(&mut buf, MAJOR_MAP, count);
        encode_uint(&mut buf, 1);
        encode_uint_head(&mut buf, MAJOR_ARRAY, self.guardians.len() as u64);
        let ghost start = buf@;
        let mut i: usize = 0;
        while i < self.guardians.len()
            invariant
                i <= self.guardians@.len(),
                buf@ == start + encode_guardians(self.guardians@.map_values(|g: [u8; 32]| g@).take(i as int)),
            decreases self.guardians@.len() - i,
        {
            let ghost gs = self.guardians@.map_values(|g: [u8; 32]| g@);
            encode_bstr(&mut buf, self.guardians[i].as_slice());
            proof {
                assert(gs.take(i as int + 1) =~= gs.take(i as int).push(gs[i as int]));
                lemma_encode_guardians_push(gs.take(i as int), gs[i as int]);
                assert(buf@ =~= start + encode_guardians(gs.take(i as int + 1)));
            }
            i = i + 1;
        }
        proof {
            let gs = self.guardians@.map_values(|g: [u8; 32]| g@);
            assert(gs.take(i as int) =~= gs);
        }
        encode_uint(&mut buf, 2);
        encode_uint(&mut buf, self.threshold);
        if let Some(d) = self.recovery_delay {
            encode_uint(&mut buf, 3);
            encode_uint(&mut buf, d);
        }
        assert(buf@ =~= spec_encode_policy(self@));
        buf
    }

    /// Decodes a recovery policy, checking guardian hash sizes and the
    /// presence of guardians and threshold.
    pub fn decode(data: &[u8]) -> (r: Result<Self>)
        ensures
            match spec_decode_policy(data@) {
                Ok(m) => r matches Ok(p) && p@ == m,
                Err(k) => r matches Err(e) && e.kind() == k,
            },
    {
        let mut offset: usize = 0;
        let map_len = decode_map_len(data, &mut offset)?;
        let mut st = PolicyFields { guardians: None, threshold: None, recovery_delay: None };
        let ghost o1 = offset as int;
        let mut i: u64 = 0;
        while i < map_len
            invariant
                i <= map_len,
                spec_decode_head(data@, 0, 5) == Some((map_len, o1)),
                spec_decode_policy_entries(data@, o1, map_len as nat,
                    PolicyState { guardians: None, threshold: None, recovery_delay: None })
                    == spec_decode_policy_entries(data@, offset as int, (map_len - i) as nat, st.state()),
            decreases map_len - i,
        {
            let key = decode_uint(data, &mut offset)?;
            decode_policy_field(data, &mut offset, key, &mut st)?;
            i = i + 1;
        }
        let guardians = match st.guardians {
            Some(g) => g,
            None => { return Err(payload_error("recovery policy: missing guardians")); },
        };
        let threshold = match st.threshold {
            Some(t) => t,
            None => { return Err(payload_error("recovery policy: missing threshold")); },
        };
        Ok(RecoveryPolicy { guardians, threshold, recovery_delay: st.recovery_delay })
    }
}

proof fn lemma_guardians_roundtrip(data: Seq<u8>, off: int, gs: Seq<Seq<u8>>, acc: Seq<Seq<u8>>)
    requires
        forall|i: int| 0 <= i < gs.len() ==> (#[trigger] gs[i]).len() == 32,
        0 <= off,
        off + encode_guardians(gs).len() <= data.len(),
        data.subrange(off, off + encode_guardians(gs).len()) == encode_guardians(gs),
    ensures
        spec_decode_guardians(data, off, gs.len(), acc)
            == Ok::<(Seq<Seq<u8>>, int), ErrorKind>((acc + gs, off + encode_guardians(gs).len())),
    decreases gs.len(),
{
    if gs.len() == 0 {
        assert(acc + gs =~= acc);
    } else {
        let b = spec_encode_bstr(gs[0]);
        let rest = encode_guardians(gs.drop_first());
        lemma_split(data, off, b, rest);
        lemma_bstr_roundtrip(data, off, gs[0], 2);
        assert forall|i: int| 0 <= i < gs.drop_first().len() implies (#[trigger] gs.drop_first()[i]).len() == 32 by {
            assert(gs.drop_first()[i] == gs[i + 1]);
        }
        lemma_guardians_roundtrip(data, off + b.len(), gs.drop_first(), acc.push(gs[0]));
        assert(acc.push(gs[0]) + gs.drop_first() =~= acc + gs);
    }
}

/// Recovery policies whose encoding decodes back: at most
/// `MAX_MAP_ENTRIES` guardians, each hash 32 bytes.
pub open spec fn policy_encodable(m: RecoveryPolicyModel) -> bool {
    m.guardians.len() <= MAX_MAP_ENTRIES && forall|i: int| 0 <= i < m.guardians.len() ==> (#[trigger] m.guardians[i]).len() == 32
}

/// Encoding of the optional delay entry of a recovery policy.
pub open spec fn policy_delay(d: Option<u64>) -> Seq<u8> {
    match d {
        Some(x) => spec_encode_head(MAJOR_UINT, 3) + spec_encode_head(MAJOR_UINT, x),
        None => Seq::empty(),
    }
}

proof fn lemma_policy_layout(m: RecoveryPolicyModel)
    ensures
        ({
            let data = spec_encode_policy(m);
            let h = spec_encode_head(MAJOR_MAP, if m.recovery_delay is Some { 3 } else { 2 });
            let k1 = spec_encode_head(MAJOR_UINT, 1);
            let a = spec_encode_head(MAJOR_ARRAY, m.guardians.len() as u64);
            let g = encode_guardians(m.guardians);
            let k2 = spec_encode_head(MAJOR_UINT, 2);
            let t = spec_encode_head(MAJOR_UINT, m.threshold);
            let d = policy_delay(m.recovery_delay);
            let o1 = h.len() as int;
            let o2 = o1 + k1.len();
            let o3 = o2 + a.len();
            let o4 = o3 + g.len();
            let o5 = o4 + k2.len();
            let o6 = o5 + t.len();
            &&& data.len() == o6 + d.len()
            &&& data.subrange(0, o1) == h
            &&& data.subrange(o1, o2) == k1
            &&& data.subrange(o2, o3) == a
            &&& data.subrange(o3, o4) == g
            &&& data.subrange(o4, o5) == k2
            &&& data.subrange(o5, o6) == t
            &&& data.subrange(o6, data.len() as int) == d
        }),
{
    let data = spec_encode_policy(m);
    let h = spec_encode_head(MAJOR_MAP, if m.recovery_delay is Some { 3 } else { 2 });
    let k1 = spec_encode_head(MAJOR_UINT, 1);
    let a = spec_encode_head(MAJOR_ARRAY, m.guardians.len() as u64);
    let g = encode_guardians(m.guardians);
    let k2 = spec_encode_head(MAJOR_UINT, 2);
    let t = spec_encode_head(MAJOR_UINT, m.threshold);
    let d = policy_delay(m.recovery_delay);
    assert(data =~= h + k1 + a + g + k2 + t + d);
    assert(data.subrange(0, data.len() as int) =~= data);
    lemma_split(data, 0, h + k1 + a + g + k2 + t, d);
    lemma_split(data, 0, h + k1 + a + g + k2, t);
    lemma_split(data, 0, h + k1 + a + g, k2);
    lemma_split(data, 0, h + k1 + a, g);
    lemma_split(data, 0, h + k1, a);
    lemma_split(data, 0, h, k1);
}

/// Decoding an encoded recovery policy gives the policy back.
#[verifier::spinoff_prover]
#[verifier::rlimit(100)]
pub proof fn law_policy_roundtrip(m: RecoveryPolicyModel)
    requires
        policy_encodable(m),
    ensures
        spec_decode_policy(spec_encode_policy(m)) == Ok::<RecoveryPolicyModel, ErrorKind>(m),
{
    let data = spec_encode_policy(m);
    let count: u64 = if m.recovery_delay is Some { 3 } else { 2 };
    let h = spec_encode_head(MAJOR_MAP, count);
    let k1 = spec_encode_head(MAJOR_UINT, 1);
    let a = spec_encode_head(MAJOR_ARRAY, m.guardians.len() as u64);
    let g = encode_guardians(m.guardians);
    let k2 = spec_encode_head(MAJOR_UINT, 2);
    let t = spec_encode_head(MAJOR_UINT, m.threshold);
    let d = policy_delay(m.recovery_delay);
    lemma_policy_layout(m);
    let ok1 = h.len() as int;
    let oa = ok1 + k1.len();
    let og = oa + a.len();
    let ok2 = og + g.len();
    let ot = ok2 + k2.len();
    let od = ot + t.len();
    lemma_head_roundtrip(data, 0, MAJOR_MAP, count);
    lemma_head_roundtrip(data, ok1, MAJOR_UINT, 1);
    lemma_head_roundtrip(data, oa, MAJOR_ARRAY, m.guardians.len() as u64);
    lemma_guardians_roundtrip(data, og, m.guardians, Seq::empty());
    assert(Seq::<Seq<u8>>::empty() + m.guardians =~= m.guardians);
    lemma_head_roundtrip(data, ok2, MAJOR_UINT, 2);
    lemma_head_roundtrip(data, ot, MAJOR_UINT, m.threshold);
    let s0 = PolicyState { guardians: None, threshold: None, recovery_delay: None };
    let s1 = PolicyState { guardians: Some(m.guardians), ..s0 };
    let s2 = PolicyState { threshold: Some(m.threshold), ..s1 };
    assert(spec_decode_policy_field(data, oa, 1, s0) == Ok::<(PolicyState, int), ErrorKind>((s1, ok2)));
    assert(spec_decode_policy_entries(data, ok1, count as nat, s0)
        == spec_decode_policy_entries(data, ok2, (count - 1) as nat, s1));
    assert(spec_decode_policy_field(data, ot, 2, s1) == Ok::<(PolicyState, int), ErrorKind>((s2, od)));
    assert(spec_decode_policy_entries(data, ok2, (count - 1) as nat, s1)
        == spec_decode_policy_entries(data, od, (count - 2) as nat, s2));
    if let Some(x) = m.recovery_delay {
        let k3 = spec_encode_head(MAJOR_UINT, 3);
        let v3 = spec_encode_head(MAJOR_UINT, x);
        let s3 = PolicyState { recovery_delay: Some(x), ..s2 };
        lemma_split(data, od, k3, v3);
        lemma_head_roundtrip(data, od, MAJOR_UINT, 3);
        lemma_head_roundtrip(data, od + k3.len(), MAJOR_UINT, x);
        assert(spec_decode_policy_field(data, od + k3.len(), 3, s2)
            == Ok::<(PolicyState, int), ErrorKind>((s3, od + d.len())));
        assert(spec_decode_policy_entries(data, od, 1, s2)
            == spec_decode_policy_entries(data, od + d.len(), 0, s3));
    }
}

/// A policy map whose only entry is a threshold is refused: guardians are
/// required.
pub proof fn law_policy_needs_guardians(t: u64)
    ensures
        spec_decode_policy(spec_encode_head(MAJOR_MAP, 1) + spec_encode_head(MAJOR_UINT, 2)
            + spec_encode_head(MAJOR_UINT, t)) == Err::<RecoveryPolicyModel, ErrorKind>(ErrorKind::Payload),
{
    let h = spec_encode_head(MAJOR_MAP, 1);
    let k = spec_encode_head(MAJOR_UINT, 2);
    let v = spec_encode_head(MAJOR_UINT, t);
    let data = h + k + v;
    assert(data.subrange(0, h.len() as int) =~= h);
    assert(data.subrange(h.len() as int, (h.len() + k.len()) as int) =~= k);
    assert(data.subrange((h.len() + k.len()) as int, data.len() as int) =~= v);
    lemma_head_roundtrip(data, 0, MAJOR_MAP, 1);
    lemma_head_roundtrip(data, h.len() as int, MAJOR_UINT, 2);
    lemma_head_roundtrip(data, (h.len() + k.len()) as int, MAJOR_UINT, t);
    reveal_with_fuel(spec_decode_policy_entries, 2);
}

/// A policy map whose only entry is a list of guardians is refused: a
/// threshold is required.
pub proof fn law_policy_needs_threshold(gs: Seq<Seq<u8>>)
    requires
        gs.len() <= MAX_MAP_ENTRIES,
        forall|i: int| 0 <= i < gs.len() ==> (#[trigger] gs[i]).len() == 32,
    ensures
        spec_decode_policy(spec_encode_head(MAJOR_MAP, 1) + spec_encode_head(MAJOR_UINT, 1)
            + spec_encode_head(MAJOR_ARRAY, gs.len() as u64) + encode_guardians(gs))
            == Err::<RecoveryPolicyModel, ErrorKind>(ErrorKind::Payload),
{
    let h = spec_encode_head(MAJOR_MAP, 1);
    let k = spec_encode_head(MAJOR_UINT, 1);
    let a = spec_encode_head(MAJOR_ARRAY, gs.len() as u64);
    let g = encode_guardians(gs);
    let data = h + k + a + g;
    let o1 = h.len() as int;
    let o2 = o1 + k.len();
    let o3 = o2 + a.len();
    assert(data.subrange(0, o1) =~= h);
    assert(data.subrange(o1, o2) =~= k);
    assert(data.subrange(o2, o3) =~= a);
    assert(data.subrange(o3, o3 + g.len()) =~= g);
    lemma_head_roundtrip(data, 0, MAJOR_MAP, 1);
    lemma_head_roundtrip(data, o1, MAJOR_UINT, 1);
    lemma_head_roundtrip(data, o2, MAJOR_ARRAY, gs.len() as u64);
    lemma_guardians_roundtrip(data, o3, gs, Seq::empty());
    reveal_with_fuel(spec_decode_policy_entries, 2);
}

/// A guardian hash of another length than 32 bytes is refused.
pub proof fn law_policy_guardian_length(b: Seq<u8>, t: u64)
    requires
        b.len() != 32,
        b.len() <= MAX_BSTR_LENGTH,
    ensures
        spec_decode_policy(spec_encode_head(MAJOR_MAP, 2) + spec_encode_head(MAJOR_UINT, 1)
            + spec_encode_head(MAJOR_ARRAY, 1) + spec_encode_bstr(b)
            + spec_encode_head(MAJOR_UINT, 2) + spec_encode_head(MAJOR_UINT, t))
            == Err::<RecoveryPolicyModel, ErrorKind>(ErrorKind::Payload),
{
    let h = spec_encode_head(MAJOR_MAP, 2);
    let k = spec_encode_head(MAJOR_UINT, 1);
    let a = spec_encode_head(MAJOR_ARRAY, 1);
    let s = spec_encode_bstr(b);
    let k2 = spec_encode_head(MAJOR_UINT, 2);
    let v = spec_encode_head(MAJOR_UINT, t);
    let data = h + k + a + s + k2 + v;
    let o1 = h.len() as int;
    let o2 = o1 + k.len();
    let o3 = o2 + a.len();
    assert(data.subrange(0, o1) =~= h);
    assert(data.subrange(o1, o2) =~= k);
    assert(data.subrange(o2, o3) =~= a);
    assert(data.subrange(o3, o3 + s.len()) =~= s);
    lemma_head_roundtrip(data, 0, MAJOR_MAP, 2);
    lemma_head_roundtrip(data, o1, MAJOR_UINT, 1);
    lemma_head_roundtrip(data, o2, MAJOR_ARRAY, 1);
    lemma_bstr_roundtrip(data, o3, b, 2);
    assert(spec_decode_bytes32(data, o3) == Err::<(Seq<u8>, int), ErrorKind>(ErrorKind::Payload));
    assert(spec_decode_guardians(data, o3, 1, Seq::empty()) == Err::<(Seq<Seq<u8>>, int), ErrorKind>(ErrorKind::Payload));
}

// ---------------------------------------------------------------------
// Decoding what was encoded

/// Payloads whose encoding the decoder reads back: the recovery policy
/// within the byte-string limit, and extensions (when written) within the
/// extension decoder's limits. The fixed-size fields hold 32 bytes.
pub open spec fn payload_encodable(p: PayloadModel) -> bool {
    &&& p.subject.len() == 32
    &&& (p.object matches Some(x) ==> x.len() == 32)
    &&& (p.lineage matches Some(x) ==> x.len() == 32)
    &&& (p.nonce matches Some(x) ==> x.len() == 32)
    &&& (p.anchor_hash matches Some(x) ==> x.len() == 32)
    &&& (p.recovery_policy matches Some(r) ==> r.len() <= MAX_BSTR_LENGTH)
    &&& (has_extensions(p.extensions) ==> extensions_decodable(p.extensions.unwrap()))
}

/// The payload as it reads back after encoding: extension maps sorted by
/// key at every level, and empty extensions dropped.
pub open spec fn normalize_payload(p: PayloadModel) -> PayloadModel {
    PayloadModel {
        extensions: norm_ext(p.extensions),
        ..p
    }
}

/// 1 when the optional field is present.
pub open spec fn present<T>(o: Option<T>) -> nat {
    if o is Some { 1 } else { 0 }
}

/// The state `st` after reading the optional 32-byte field `key`.
pub open spec fn set_bytes(st: DecodeState, key: u64, b: Option<Seq<u8>>) -> DecodeState {
    match b {
        Some(x) => with_bytes(st, key, x),
        None => st,
    }
}

proof fn lemma_bytes_field(data: Seq<u8>, off: int, n: nat, prev: u64, st: DecodeState, key: u64, b: Option<Seq<u8>>)
    requires
        key == 1 || key == 3 || key == 5 || key == 6 || key == 8,
        prev < key,
        b matches Some(x) ==> x.len() == 32 && n > 0,
        0 <= off,
        off + field_bstr(key, b).len() <= data.len(),
        data.subrange(off, off + field_bstr(key, b).len()) == field_bstr(key, b),
    ensures
        spec_decode_fields(data, off, n, prev, st) == spec_decode_fields(
            data, off + field_bstr(key, b).len(), (n - present(b)) as nat,
            if b is Some { key } else { prev }, set_bytes(st, key, b)),
{
    if let Some(x) = b {
        let h = spec_encode_head(MAJOR_UINT, key);
        let v = spec_encode_bstr(x);
        lemma_split(data, off, h, v);
        lemma_head_roundtrip(data, off, MAJOR_UINT, key);
        lemma_bstr_roundtrip(data, off + h.len(), x, 2);
    }
}

proof fn lemma_predicate_field(data: Seq<u8>, off: int, n: nat, prev: u64, st: DecodeState, pred: Predicate)
    requires
        prev < 2,
        n > 0,
        0 <= off,
        off + field_uint(2, Some(predicate_code(pred) as u64)).len() <= data.len(),
        data.subrange(off, off + field_uint(2, Some(predicate_code(pred) as u64)).len())
            == field_uint(2, Some(predicate_code(pred) as u64)),
    ensures
        spec_decode_fields(data, off, n, prev, st) == spec_decode_fields(
            data, off + field_uint(2, Some(predicate_code(pred) as u64)).len(), (n - 1) as nat, 2,
            DecodeState { predicate: Some(predicate_code(pred)), ..st }),
{
    let v = predicate_code(pred) as u64;
    let h = spec_encode_head(MAJOR_UINT, 2);
    let w = spec_encode_head(MAJOR_UINT, v);
    lemma_split(data, off, h, w);
    lemma_head_roundtrip(data, off, MAJOR_UINT, 2);
    lemma_head_roundtrip(data, off + h.len(), MAJOR_UINT, v);
    crate::predicate::law_predicate_code_roundtrip(pred);
}

proof fn lemma_timestamp_field(data: Seq<u8>, off: int, n: nat, prev: u64, st: DecodeState, t: Option<u64>)
    requires
        prev < 4,
        t is Some ==> n > 0,
        0 <= off,
        off + field_uint(4, t).len() <= data.len(),
        data.subrange(off, off + field_uint(4, t).len()) == field_uint(4, t),
    ensures
        spec_decode_fields(data, off, n, prev, st) == spec_decode_fields(
            data, off + field_uint(4, t).len(), (n - present(t)) as nat,
            if t is Some { 4 } else { prev },
            if t is Some { DecodeState { timestamp: t, ..st } } else { st }),
{
    if let Some(x) = t {
        let h = spec_encode_head(MAJOR_UINT, 4);
        let w = spec_encode_head(MAJOR_UINT, x);
        lemma_split(data, off, h, w);
        lemma_head_roundtrip(data, off, MAJOR_UINT, 4);
        lemma_head_roundtrip(data, off + h.len(), MAJOR_UINT, x);
    }
}

proof fn lemma_extensions_field(data: Seq<u8>, off: int, n: nat, prev: u64, st: DecodeState, e: Option<Seq<(u64, SpecValue)>>)
    requires
        prev < 7,
        has_extensions(e) ==> n > 0 && extensions_decodable(e.unwrap()),
        0 <= off,
        off + field_extensions(e).len() <= data.len(),
        data.subrange(off, off + field_extensions(e).len()) == field_extensions(e),
    ensures
        spec_decode_fields(data, off, n, prev, st) == spec_decode_fields(
            data, off + field_extensions(e).len(), (n - (if has_extensions(e) { 1nat } else { 0nat })) as nat,
            if has_extensions(e) { 7 } else { prev },
            if has_extensions(e) {
                DecodeState { extensions: Some(sort_by_key(normalize_entries(e.unwrap()))), ..st }
            } else {
                st
            }),
{
    if has_extensions(e) {
        let es = e.unwrap();
        let s = sort_by_key(normalize_entries(es));
        let h = spec_encode_head(MAJOR_UINT, 7);
        let w = spec_encode_value(SpecValue::Mapping(es));
        assert(w == encode_ordered(SpecValue::Mapping(s)));
        lemma_split(data, off, h, w);
        lemma_head_roundtrip(data, off, MAJOR_UINT, 7);
        lemma_normalize_extensions_decodable(es);
        lemma_map_value_roundtrip(data, off + h.len(), s);
    }
}

proof fn lemma_policy_field(data: Seq<u8>, off: int, n: nat, prev: u64, st: DecodeState, r: Option<Seq<u8>>)
    requires
        prev < 10,
        r matches Some(x) ==> n > 0 && x.len() <= MAX_BSTR_LENGTH,
        0 <= off,
        off + field_bstr(10, r).len() <= data.len(),
        data.subrange(off, off + field_bstr(10, r).len()) == field_bstr(10, r),
    ensures
        spec_decode_fields(data, off, n, prev, st) == spec_decode_fields(
            data, off + field_bstr(10, r).len(), (n - present(r)) as nat,
            if r is Some { 10 } else { prev },
            if r is Some { DecodeState { recovery_policy: r, ..st } } else { st }),
{
    if let Some(x) = r {
        let h = spec_encode_head(MAJOR_UINT, 10);
        let v = spec_encode_bstr(x);
        lemma_split(data, off, h, v);
        lemma_head_roundtrip(data, off, MAJOR_UINT, 10);
        lemma_bstr_roundtrip(data, off + h.len(), x, 2);
    }
}

/// The `k`-th segment of a payload's encoding: the map head, then the
/// fields in key order (absent fields give empty segments).
pub open spec fn enc_seg(p: PayloadModel, k: int) -> Seq<u8> {
    if k == 0 {
        spec_encode_head(MAJOR_MAP, field_count(p) as u64)
    } else if k == 1 {
        field_bstr(1, Some(p.subject))
    } else if k == 2 {
        field_uint(2, Some(predicate_code(p.predicate) as u64))
    } else if k == 3 {
        field_bstr(3, p.object)
    } else if k == 4 {
        field_uint(4, p.timestamp)
    } else if k == 5 {
        field_bstr(5, p.lineage)
    } else if k == 6 {
        field_bstr(6, p.nonce)
    } else if k == 7 {
        field_extensions(p.extensions)
    } else if k == 8 {
        field_bstr(8, p.anchor_hash)
    } else {
        field_bstr(10, p.recovery_policy)
    }
}

/// The first `k + 1` segments of a payload's encoding.
pub open spec fn enc_prefix(p: PayloadModel, k: nat) -> Seq<u8>
    decreases k,
{
    if k == 0 {
        enc_seg(p, 0)
    } else {
        enc_prefix(p, (k - 1) as nat) + enc_seg(p, k as int)
    }
}

/// Offset at which segment `k + 1` of a payload's encoding starts.
pub open spec fn seg_end(p: PayloadModel, k: nat) -> int {
    enc_prefix(p, k).len() as int
}

proof fn lemma_prefix_layout(data: Seq<u8>, p: PayloadModel, k: nat)
    requires
        k <= 9,
        enc_prefix(p, k).len() <= data.len(),
        data.subrange(0, enc_prefix(p, k).len() as int) == enc_prefix(p, k),
    ensures
        data.subrange(0, seg_end(p, 0)) == enc_seg(p, 0),
        forall|j: nat| 1 <= j <= k ==> data.subrange(seg_end(p, (j - 1) as nat), #[trigger] seg_end(p, j))
            == enc_seg(p, j as int) && seg_end(p, j) == seg_end(p, (j - 1) as nat) + enc_seg(p, j as int).len(),
    decreases k,
{
    if k > 0 {
        lemma_split(data, 0, enc_prefix(p, (k - 1) as nat), enc_seg(p, k as int));
        lemma_prefix_layout(data, p, (k - 1) as nat);
    }
}

proof fn lemma_payload_layout(p: PayloadModel)
    ensures
        spec_encode_payload(p) == enc_prefix(p, 9),
{
    reveal_with_fuel(enc_prefix, 10);
    let code = predicate_code(p.predicate);
    assert(spec_encode_head(MAJOR_UINT, 1) + spec_encode_bstr(p.subject) == enc_seg(p, 1));
    assert(spec_encode_head(MAJOR_UINT, 2) + spec_encode_head(MAJOR_UINT, code as u64) == enc_seg(p, 2));
    assert(spec_encode_payload(p) =~= enc_prefix(p, 9));
}

/// Extensions as they read back after encoding.
pub open spec fn norm_ext(e: Option<Seq<(u64, SpecValue)>>) -> Option<Seq<(u64, SpecValue)>> {
    if has_extensions(e) {
        Some(sort_by_key(normalize_entries(e.unwrap())))
    } else {
        None
    }
}

/// Decoder state after the first `k` field segments of `p`'s encoding.
pub open spec fn partial(p: PayloadModel, k: nat) -> DecodeState {
    DecodeState {
        subject: if k >= 1 { Some(p.subject) } else { None },
        predicate: if k >= 2 { Some(predicate_code(p.predicate)) } else { None },
        object: if k >= 3 { p.object } else { None },
        timestamp: if k >= 4 { p.timestamp } else { None },
        lineage: if k >= 5 { p.lineage } else { None },
        nonce: if k >= 6 { p.nonce } else { None },
        extensions: if k >= 7 { norm_ext(p.extensions) } else { None },
        anchor_hash: if k >= 8 { p.anchor_hash } else { None },
        recovery_policy: if k >= 9 { p.recovery_policy } else { None },
    }
}

/// Number of map entries in segment `k`.
pub open spec fn seg_count(p: PayloadModel, k: nat) -> nat {
    if k == 1 || k == 2 {
        1
    } else if k == 3 {
        present(p.object)
    } else if k == 4 {
        present(p.timestamp)
    } else if k == 5 {
        present(p.lineage)
    } else if k == 6 {
        present(p.nonce)
    } else if k == 7 {
        if has_extensions(p.extensions) { 1 } else { 0 }
    } else if k == 8 {
        present(p.anchor_hash)
    } else if k == 9 {
        present(p.recovery_policy)
    } else {
        0
    }
}

/// Map key of segment `k`.
pub open spec fn seg_key(k: nat) -> u64 {
    if k == 9 { 10 } else { k as u64 }
}

/// Number of map entries after segment `k`.
pub open spec fn count_after(p: PayloadModel, k: nat) -> nat
    decreases 9 - k,
{
    if k >= 9 { 0 } else { seg_count(p, k + 1) + count_after(p, k + 1) }
}

proof fn lemma_step(data: Seq<u8>, p: PayloadModel, k: nat, prev: u64, n: nat)
    requires
        1 <= k <= 9,
        payload_encodable(p),
        prev < seg_key(k),
        n >= seg_count(p, k),
        0 <= seg_end(p, (k - 1) as nat),
        seg_end(p, k) == seg_end(p, (k - 1) as nat) + enc_seg(p, k as int).len(),
        seg_end(p, k) <= data.len(),
        data.subrange(seg_end(p, (k - 1) as nat), seg_end(p, k)) == enc_seg(p, k as int),
    ensures
        spec_decode_fields(data, seg_end(p, (k - 1) as nat), n, prev, partial(p, (k - 1) as nat))
            == spec_decode_fields(data, seg_end(p, k), (n - seg_count(p, k)) as nat,
                if seg_count(p, k) == 1 { seg_key(k) } else { prev }, partial(p, k)),
{
    let off = seg_end(p, (k - 1) as nat);
    let st = partial(p, (k - 1) as nat);
    if k == 1 {
        lemma_bytes_field(data, off, n, prev, st, 1, Some(p.subject));
    } else if k == 2 {
        lemma_predicate_field(data, off, n, prev, st, p.predicate);
    } else if k == 3 {
        lemma_bytes_field(data, off, n, prev, st, 3, p.object);
    } else if k == 4 {
        lemma_timestamp_field(data, off, n, prev, st, p.timestamp);
    } else if k == 5 {
        lemma_bytes_field(data, off, n, prev, st, 5, p.lineage);
    } else if k == 6 {
        lemma_bytes_field(data, off, n, prev, st, 6, p.nonce);
    } else if k == 7 {
        lemma_extensions_field(data, off, n, prev, st, p.extensions);
    } else if k == 8 {
        lemma_bytes_field(data, off, n, prev, st, 8, p.anchor_hash);
    } else {
        lemma_policy_field(data, off, n, prev, st, p.recovery_policy);
    }
}

proof fn lemma_rest(data: Seq<u8>, p: PayloadModel, k: nat, prev: u64)
    requires
        k <= 9,
        payload_encodable(p),
        prev <= seg_key(k),
        data == enc_prefix(p, 9),
    ensures
        spec_decode_fields(data, seg_end(p, k), count_after(p, k), prev, partial(p, k))
            == Ok::<(DecodeState, int), ErrorKind>((partial(p, 9), data.len() as int)),
    decreases 9 - k,
{
    if k < 9 {
        assert(data.subrange(0, data.len() as int) =~= data);
        lemma_prefix_layout(data, p, 9);
        assert(seg_end(p, k + 1) == seg_end(p, k) + enc_seg(p, (k + 1) as int).len());
        assert(seg_end(p, k) >= 0) by {
            if k > 0 {
                assert(seg_end(p, k) == seg_end(p, (k - 1) as nat) + enc_seg(p, k as int).len());
            }
        }
        lemma_seg_end_mono(p, k + 1);
        lemma_step(data, p, k + 1, prev, count_after(p, k));
        let next: u64 = if seg_count(p, k + 1) == 1 { seg_key(k + 1) } else { prev };
        lemma_rest(data, p, k + 1, next);
    }
}

proof fn lemma_seg_end_mono(p: PayloadModel, j: nat)
    requires
        j <= 9,
    ensures
        seg_end(p, j) <= seg_end(p, 9),
    decreases 9 - j,
{
    if j < 9 {
        lemma_seg_end_mono(p, j + 1);
        assert(enc_prefix(p, j + 1) == enc_prefix(p, j) + enc_seg(p, (j + 1) as int));
    }
}

proof fn lemma_count_after_start(p: PayloadModel)
    ensures
        count_after(p, 0) == field_count(p),
{
    reveal_with_fuel(count_after, 10);
}

/// A payload already in normal form (extension maps sorted by key at every
/// level, no empty extension map) reads back exactly after encoding.
pub proof fn law_canonical_payload_roundtrip(p: PayloadModel)
    requires
        payload_encodable(p),
        normalize_payload(p) == p,
    ensures
        spec_decode_payload(spec_encode_payload(p)) == Ok::<PayloadModel, ErrorKind>(p),
{
    law_payload_roundtrip(p);
}

/// Decoding an encoded payload gives the payload back, up to the order of
/// extension map entries (sorted by key when written) and empty
/// extensions (omitted when written).
pub proof fn law_payload_roundtrip(p: PayloadModel)
    requires
        payload_encodable(p),
    ensures
        spec_decode_payload(spec_encode_payload(p)) == Ok::<PayloadModel, ErrorKind>(normalize_payload(p)),
{
    let data = spec_encode_payload(p);
    lemma_payload_layout(p);
    assert(data.subrange(0, data.len() as int) =~= data);
    lemma_prefix_layout(data, p, 9);
    lemma_head_roundtrip(data, 0, MAJOR_MAP, field_count(p) as u64);
    lemma_count_after_start(p);
    lemma_rest(data, p, 0, 0);
    assert(partial(p, 0) == empty_state());
    crate::predicate::law_predicate_code_roundtrip(p.predicate);
}


/// Encoding a payload as it reads back gives the same bytes as encoding
/// the payload itself.
proof fn lemma_encode_normalized(p: PayloadModel)
    ensures
        spec_encode_payload(normalize_payload(p)) == spec_encode_payload(p),
{
    if has_extensions(p.extensions) {
        let es = p.extensions.unwrap();
        let s = sort_by_key(normalize_entries(es));
        lemma_sort_len(normalize_entries(es));
        lemma_normalize_entries_map(es);
        lemma_normalize_idempotent(SpecValue::Mapping(es));
        assert(normalize(SpecValue::Mapping(s)) == SpecValue::Mapping(s));
        assert(field_extensions(Some(s)) == field_extensions(p.extensions));
        assert(field_count(normalize_payload(p)) == field_count(p));
    }
}

/// Every encoded payload is in strict deterministic form: decoding it and
/// encoding the result reproduces the same bytes.
pub proof fn law_encoding_is_deterministic(p: PayloadModel)
    requires
        payload_encodable(p),
    ensures
        spec_is_strictly_deterministic(spec_encode_payload(p)),
{
    law_payload_roundtrip(p);
    lemma_encode_normalized(p);
}

} // verus!
