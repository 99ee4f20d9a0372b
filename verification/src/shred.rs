//! Crypto-shredding of personal data: data is encrypted under a per-subject
//! key (XChaCha20-Poly1305, random 24-byte nonce in front of the
//! ciphertext); only a hash of the ciphertext is committed to; destroying
//! the key erases the data. Keys can be wrapped for a recipient with HPKE.
use vstd::prelude::*;
use crate::cbor::{MAX_BSTR_LENGTH, MAX_MAP_ENTRIES, append_bytes};
use crate::cbor_payload::{AxiomPayload, payload_encodable};
use crate::cbor_value::{SpecValue, Value, extensions_decodable, value_decodable};
use crate::crypto::{
    hpke_open, hpke_seal, random_bytes, spec_blake3, spec_hpke_open, spec_xchacha_open, spec_xchacha_seal, xchacha_open,
    xchacha_seal, zeroize32, XCHACHA_MAX_PLAINTEXT,
};
use crate::crypto::{spec_x25519_public, x25519_public};
use crate::error::{Error, ErrorKind, Result, append_decimal, crypto_error, decimal_text};
use crate::hash::blake3;
use crate::predicate::Predicate;

verus! {

/// Size of a shredding key.
pub const KEY_SIZE: usize = 32;
/// Size of the nonce in front of a ciphertext.
pub const NONCE_SIZE: usize = 24;

/// A symmetric key protecting one subject's personal data.
#[derive(Debug, Clone)]
pub struct ShreddingKey {
    /// The 32 key bytes.
    pub key: [u8; 32],
}

impl ShreddingKey {
    /// A fresh key from the operating system's random generator.
    pub fn generate() -> (r: Self)
        ensures
            r.key@.len() == KEY_SIZE,
    {
        let bytes = random_bytes(KEY_SIZE);
        ShreddingKey { key: crate::cose::to_array(bytes.as_slice()) }
    }

    /// A key from exactly 32 bytes; any other length is a `Crypto` error.
    pub fn from_bytes(bytes: &[u8]) -> (r: Result<Self>)
        ensures
            bytes@.len() == KEY_SIZE ==> (r matches Ok(k) && k.key@ == bytes@),
            bytes@.len() != KEY_SIZE ==> (r matches Err(e) && e.kind() == ErrorKind::Crypto),
            bytes@.len() != KEY_SIZE ==> (r matches Err(Error::Crypto(m))
                && m@ == "shredding key must be 32 bytes, got "@ + decimal_text(bytes@.len() as nat)),
    {
        if bytes.len() != KEY_SIZE {
            let mut m = "shredding key must be 32 bytes, got ".to_owned();
            append_decimal(&mut m, bytes.len() as u64);
            return Err(Error::Crypto(m));
        }
        Ok(ShreddingKey { key: crate::cose::to_array(bytes) })
    }

    /// The key bytes.
    pub fn to_bytes(&self) -> (r: &[u8; 32])
        ensures
            r@ == self.key@,
    {
        &self.key
    }

    /// Public identifier of the key: the BLAKE3 hash of its bytes.
    pub fn key_id(&self) -> (r: [u8; 32])
        ensures
            r@ == spec_blake3(self.key@),
    {
        blake3(self.key.as_slice())
    }

    /// Overwrites the key bytes with zeros.
    pub fn zeroize(&mut self)
        ensures
            forall|i: int| 0 <= i < KEY_SIZE ==> final(self).key@[i] == 0u8,
    {
        zeroize32(&mut self.key);
    }
}

/// Decryption of `nonce || ciphertext` under `key`.
pub open spec fn spec_decrypt_pii(key: Seq<u8>, encrypted: Seq<u8>) -> core::result::Result<Seq<u8>, ErrorKind> {
    if encrypted.len() < NONCE_SIZE {
        Err(ErrorKind::Crypto)
    } else {
        match spec_xchacha_open(key, encrypted.subrange(0, NONCE_SIZE as int), encrypted.subrange(NONCE_SIZE as int, encrypted.len() as int)) {
            Some(p) => Ok(p),
            None => Err(ErrorKind::Crypto),
        }
    }
}

/// Encrypts `plaintext` under `key` with the given `nonce`, which is put
/// in front of the ciphertext; a plaintext too long for the cipher is a
/// `Crypto` error.
pub fn encrypt_pii_with_nonce(key: &ShreddingKey, nonce: &[u8; 24], plaintext: &[u8]) -> (r: Result<Vec<u8>>)
    requires
        plaintext@.len() + 16 <= isize::MAX,
    ensures
        match spec_xchacha_seal(key.key@, nonce@, plaintext@) {
            Some(c) => r matches Ok(v) && v@ == nonce@ + c,
            None => r matches Err(e) && e.kind() == ErrorKind::Crypto,
        },
        r is Ok <==> plaintext@.len() <= XCHACHA_MAX_PLAINTEXT,
        r matches Ok(v) ==> v@.len() == NONCE_SIZE + plaintext@.len() + 16
            && spec_decrypt_pii(key.key@, v@) == Ok::<Seq<u8>, ErrorKind>(plaintext@),
{
    let ciphertext = match xchacha_seal(&key.key, nonce, plaintext) {
        Some(c) => c,
        None => { return Err(crypto_error("XChaCha20Poly1305 encrypt failed")); },
    };
    let mut result: Vec<u8> = Vec::new();
    append_bytes(&mut result, nonce.as_slice());
    append_bytes(&mut result, ciphertext.as_slice());
    assert(result@ =~= nonce@ + ciphertext@);
    assert(result@.subrange(0, NONCE_SIZE as int) =~= nonce@);
    assert(result@.subrange(NONCE_SIZE as int, result@.len() as int) =~= ciphertext@);
    Ok(result)
}

/// Encrypts `plaintext` under `key` with a fresh random nonce, returned in
/// front of the ciphertext (`encrypt_pii_with_nonce`). It succeeds unless
/// the plaintext is too long for the cipher, and whatever nonce was drawn,
/// decrypting the result under the same key gives the plaintext back.
pub fn encrypt_pii(key: &ShreddingKey, plaintext: &[u8]) -> (r: Result<Vec<u8>>)
    requires
        plaintext@.len() + 16 <= isize::MAX,
    ensures
        r is Ok <==> plaintext@.len() <= XCHACHA_MAX_PLAINTEXT,
        r matches Ok(v) ==> v@.len() == NONCE_SIZE + plaintext@.len() + 16
            && spec_xchacha_seal(key.key@, v@.subrange(0, NONCE_SIZE as int), plaintext@)
                == Some(v@.subrange(NONCE_SIZE as int, v@.len() as int))
            && spec_decrypt_pii(key.key@, v@) == Ok::<Seq<u8>, ErrorKind>(plaintext@),
        r matches Err(e) ==> e.kind() == ErrorKind::Crypto,
{
    let nonce_bytes = random_bytes(NONCE_SIZE);
    let nonce: [u8; 24] = crate::cose::to_array(nonce_bytes.as_slice());
    let r = encrypt_pii_with_nonce(key, &nonce, plaintext);
    proof {
        if r is Ok {
            let v = r->Ok_0;
            assert(v@.subrange(0, NONCE_SIZE as int) =~= nonce@);
            assert(v@.subrange(NONCE_SIZE as int, v@.len() as int) =~= spec_xchacha_seal(key.key@, nonce@, plaintext@)->Some_0);
        }
    }
    r
}

/// Decrypts `nonce || ciphertext` under `key`; too short an input or a
/// failed authentication is a `Crypto` error.
pub fn decrypt_pii(key: &ShreddingKey, encrypted: &[u8]) -> (r: Result<Vec<u8>>)
    ensures
        match spec_decrypt_pii(key.key@, encrypted@) {
            Ok(p) => r matches Ok(v) && v@ == p,
            Err(k) => r matches Err(e) && e.kind() == k,
        },
{
    if encrypted.len() < NONCE_SIZE {
        return Err(crypto_error("encrypted data too short"));
    }
    let nonce: [u8; 24] = crate::cose::to_array(crate::cose::copy_range(encrypted, 0, NONCE_SIZE).as_slice());
    let ciphertext = crate::cose::copy_range(encrypted, NONCE_SIZE, encrypted.len());
    match xchacha_open(&key.key, &nonce, ciphertext.as_slice()) {
        Some(p) => Ok(p),
        None => Err(crypto_error("XChaCha20Poly1305 decrypt failed")),
    }
}

/// Commitment to a ciphertext: its BLAKE3 hash.
pub fn hash_ciphertext(encrypted: &[u8]) -> (r: [u8; 32])
    ensures
        r@ == spec_blake3(encrypted@),
{
    blake3(encrypted)
}

/// Encrypts `plaintext` and commits to the ciphertext: the ciphertext and
/// its hash. The ciphertext decrypts to the plaintext under `key`.
pub fn shredding_commit(key: &ShreddingKey, plaintext: &[u8]) -> (r: Result<(Vec<u8>, [u8; 32])>)
    requires
        plaintext@.len() + 16 <= isize::MAX,
    ensures
        r is Ok <==> plaintext@.len() <= XCHACHA_MAX_PLAINTEXT,
        r matches Ok((c, h)) ==> c@.len() == NONCE_SIZE + plaintext@.len() + 16
            && spec_xchacha_seal(key.key@, c@.subrange(0, NONCE_SIZE as int), plaintext@)
                == Some(c@.subrange(NONCE_SIZE as int, c@.len() as int)),
        r matches Ok((c, h)) ==> h@ == spec_blake3(c@)
            && spec_decrypt_pii(key.key@, c@) == Ok::<Seq<u8>, ErrorKind>(plaintext@),
        r matches Err(e) ==> e.kind() == ErrorKind::Crypto,
{
    let ciphertext = encrypt_pii(key, plaintext)?;
    let commitment = hash_ciphertext(ciphertext.as_slice());
    Ok((ciphertext, commitment))
}

/// The HPKE `info` string of wrapped shredding keys, `"axiom-shredding-key-v1"`.
pub open spec fn hpke_info() -> Seq<u8> {
    seq![0x61u8, 0x78, 0x69, 0x6f, 0x6d, 0x2d, 0x73, 0x68, 0x72, 0x65, 0x64, 0x64, 0x69, 0x6e, 0x67, 0x2d, 0x6b,
        0x65, 0x79, 0x2d, 0x76, 0x31]
}

fn hpke_info_bytes() -> (r: [u8; 22])
    ensures
        r@ == hpke_info(),
{
    let r: [u8; 22] = [0x61, 0x78, 0x69, 0x6f, 0x6d, 0x2d, 0x73, 0x68, 0x72, 0x65, 0x64, 0x64, 0x69, 0x6e, 0x67, 0x2d,
        0x6b, 0x65, 0x79, 0x2d, 0x76, 0x31];
    assert(r@ =~= hpke_info());
    r
}

/// The X25519 public key belonging to the HPKE private key `recipient_sk`.
pub fn hpke_public_key(recipient_sk: &[u8; 32]) -> (r: [u8; 32])
    ensures
        r@ == spec_x25519_public(recipient_sk@),
{
    x25519_public(recipient_sk)
}

/// Wraps a shredding key for the X25519 public key `recipient_pk` with
/// HPKE (X25519-HKDF-SHA256, HKDF-SHA384, AES-256-GCM, base mode); the
/// encapsulated key and the ciphertext. Encapsulation is randomized, and
/// failures are `Crypto` errors. Whatever was drawn, unwrapping with a
/// private key whose public key is `recipient_pk` gives the key back.
pub fn hpke_encrypt_key(recipient_pk: &[u8; 32], shredding_key: &ShreddingKey) -> (r: Result<(Vec<u8>, Vec<u8>)>)
    ensures
        r matches Err(e) ==> e.kind() == ErrorKind::Crypto,
        r matches Ok((enc, ct)) ==> forall|sk: Seq<u8>| sk.len() == 32 && #[trigger] spec_x25519_public(sk) == recipient_pk@
            ==> spec_hpke_decrypt_key(sk, enc@, ct@) == Ok::<Seq<u8>, ErrorKind>(shredding_key.key@),
{
    let info = hpke_info_bytes();
    match hpke_seal(recipient_pk, info.as_slice(), shredding_key.key.as_slice()) {
        Some(pair) => Ok(pair),
        None => Err(crypto_error("HPKE seal failed")),
    }
}

/// Unwrapping of a shredding key with the X25519 private key `sk`.
pub open spec fn spec_hpke_decrypt_key(sk: Seq<u8>, encapped: Seq<u8>, encrypted: Seq<u8>) -> core::result::Result<Seq<u8>, ErrorKind> {
    match spec_hpke_open(sk, encapped, hpke_info(), encrypted) {
        None => Err(ErrorKind::Crypto),
        Some(k) => if k.len() != KEY_SIZE { Err(ErrorKind::Crypto) } else { Ok(k) },
    }
}

/// Unwraps a shredding key with the recipient's X25519 private key; a
/// failed opening or a wrapped value that is not 32 bytes is a `Crypto`
/// error.
pub fn hpke_decrypt_key(recipient_sk: &[u8; 32], encapped_key: &[u8], encrypted_key: &[u8]) -> (r: Result<ShreddingKey>)
    ensures
        match spec_hpke_decrypt_key(recipient_sk@, encapped_key@, encrypted_key@) {
            Ok(k) => r matches Ok(x) && x.key@ == k,
            Err(k) => r matches Err(e) && e.kind() == k,
        },
{
    let info = hpke_info_bytes();
    let key_bytes = match hpke_open(recipient_sk, encapped_key, info.as_slice(), encrypted_key) {
        Some(k) => k,
        None => { return Err(crypto_error("HPKE open failed")); },
    };
    ShreddingKey::from_bytes(key_bytes.as_slice())
}

/// Record that a subject's data was erased by destroying its key.
#[derive(Debug, Clone)]
pub struct ErasureRecord {
    /// Identifier of the destroyed key.
    pub key_id: [u8; 32],
    /// Commitment to the ciphertext that can no longer be decrypted.
    pub ciphertext_commitment: [u8; 32],
    /// When the key was destroyed.
    pub timestamp: u64,
    /// Hash of the statement revoking the data, once one exists.
    pub revocation_statement_hash: Option<[u8; 32]>,
}

/// Destroys `key` (its bytes are zeroed before it is dropped) and records
/// the erasure: key identifier, ciphertext commitment, time.
pub fn erasure_protocol(key: ShreddingKey, ciphertext: &[u8], timestamp: u64) -> (r: ErasureRecord)
    ensures
        r.key_id@ == spec_blake3(key.key@),
        r.ciphertext_commitment@ == spec_blake3(ciphertext@),
        r.timestamp == timestamp,
        r.revocation_statement_hash is None,
{
    let mut key = key;
    let key_id = key.key_id();
    let commitment = blake3(ciphertext);
    key.zeroize();
    ErasureRecord { key_id, ciphertext_commitment: commitment, timestamp, revocation_statement_hash: None }
}

fn to_vec(b: &[u8]) -> (r: Vec<u8>)
    ensures
        r@ == b@,
{
    let mut v: Vec<u8> = Vec::new();
    append_bytes(&mut v, b);
    v
}

/// A consent statement payload: the policy hash as subject, predicate
/// `CompliesWith`, the consent time, and in extensions 100 to 102 the
/// user's DID, the time again and the scope (no personal data in the
/// fixed fields). Within the byte-string limit it encodes and decodes.
pub fn create_consent_payload(
    consent_policy_hash: [u8; 32],
    user_did: &[u8],
    consent_timestamp: u64,
    consent_scope: &[u8],
) -> (r: AxiomPayload)
    ensures
        r.subject == consent_policy_hash,
        r.predicate == Predicate::CompliesWith,
        r.object is None,
        r.timestamp == Some(consent_timestamp),
        r.lineage is None,
        r.nonce is None,
        r.anchor_hash is None,
        r.recovery_policy is None,
        r@.extensions == Some(seq![
            (100u64, SpecValue::Bstr(user_did@)),
            (101u64, SpecValue::Uint(consent_timestamp)),
            (102u64, SpecValue::Bstr(consent_scope@)),
        ]),
        user_did@.len() <= MAX_BSTR_LENGTH && consent_scope@.len() <= MAX_BSTR_LENGTH ==> payload_encodable(r@),
{
    let mut payload = AxiomPayload::new(consent_policy_hash, Predicate::CompliesWith);
    payload.timestamp = Some(consent_timestamp);
    let mut exts: Vec<(u64, Value)> = Vec::new();
    exts.push((100, Value::Bstr(to_vec(user_did))));
    exts.push((101, Value::Uint(consent_timestamp)));
    exts.push((102, Value::Bstr(to_vec(consent_scope))));
    payload.extensions = Some(exts);
    proof {
        crate::cbor_value::lemma_entries_model_index(exts@);
        assert(payload@.extensions.unwrap() =~= seq![
            (100u64, SpecValue::Bstr(user_did@)),
            (101u64, SpecValue::Uint(consent_timestamp)),
            (102u64, SpecValue::Bstr(consent_scope@)),
        ]);
    }
    payload
}

} // verus!
