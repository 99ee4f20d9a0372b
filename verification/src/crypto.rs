//! The cryptographic primitives the protocol relies on, each a thin call
//! into its outside crate. Keys and signatures travel as byte arrays:
//! Ed25519 and ML-DSA-65 signing keys as their 32-byte seeds, public keys
//! in their encoded forms.
//!
//! Deterministic primitives get a name for their result; the contracts add
//! only the correctness facts the crates document (a signature made with a
//! key verifies under its public key, an AEAD opens what it sealed).
use vstd::prelude::*;
use chacha20poly1305::aead::{Aead, KeyInit};
use ed25519_dalek::{Signer, Verifier};
use hpke::{Deserializable, Kem, Serializable};
use ml_dsa::Keypair;
use rand_core::RngCore;
use sha2::Digest;
use zeroize::Zeroize;

verus! {

// ---------------------------------------------------------------------
// Hashing

/// BLAKE3 digest of `data` (what `blake3::hash` returns).
pub uninterp spec fn spec_blake3(data: Seq<u8>) -> Seq<u8>;

/// BLAKE3 key derivation of `material` under `context` (what
/// `blake3::derive_key` returns).
pub uninterp spec fn spec_blake3_derive_key(context: Seq<char>, material: Seq<u8>) -> Seq<u8>;

/// SHA-256 digest of `data` (what `sha2::Sha256::digest` returns).
pub uninterp spec fn spec_sha256(data: Seq<u8>) -> Seq<u8>;

/// Calls `blake3::hash`: the 32-byte digest of `data`.
#[verifier::external_body]
pub(crate) fn blake3_hash(data: &[u8]) -> (r: [u8; 32])
    ensures
        r@ == spec_blake3(data@),
{
    *blake3::hash(data).as_bytes()
}

/// Calls `blake3::derive_key`: 32 bytes derived from `material` in the
/// domain named by `context`.
#[verifier::external_body]
pub(crate) fn blake3_derive(context: &str, material: &[u8]) -> (r: [u8; 32])
    ensures
        r@ == spec_blake3_derive_key(context@, material@),
{
    blake3::derive_key(context, material)
}

/// Calls `sha2::Sha256::digest`: the 32-byte SHA-256 digest of `data`.
#[verifier::external_body]
pub(crate) fn sha256(data: &[u8]) -> (r: [u8; 32])
    ensures
        r@ == spec_sha256(data@),
{
    sha2::Sha256::digest(data).into()
}

// ---------------------------------------------------------------------
// Ed25519

/// Encoded public key of the Ed25519 signing key with seed `seed`.
pub uninterp spec fn spec_ed25519_public(seed: Seq<u8>) -> Seq<u8>;

/// RFC 8032 Ed25519 signature of `msg` under the key with seed `seed`.
pub uninterp spec fn spec_ed25519_sign(seed: Seq<u8>, msg: Seq<u8>) -> Seq<u8>;

/// Whether `public` decodes to a curve point (a usable verifying key).
pub uninterp spec fn spec_ed25519_point_valid(public: Seq<u8>) -> bool;

/// Whether `sig` is a valid Ed25519 signature of `msg` under `public`.
pub uninterp spec fn spec_ed25519_verify(public: Seq<u8>, msg: Seq<u8>, sig: Seq<u8>) -> bool;

/// RFC 8032 Ed25519ph signature, with context `context`, of the SHA-512
/// digest of `context` followed by `msg`.
pub uninterp spec fn spec_ed25519ph_sign(seed: Seq<u8>, context: Seq<u8>, msg: Seq<u8>) -> Seq<u8>;

/// Whether `sig` is a valid Ed25519ph signature as made by `spec_ed25519ph_sign`.
pub uninterp spec fn spec_ed25519ph_verify(public: Seq<u8>, context: Seq<u8>, msg: Seq<u8>, sig: Seq<u8>) -> bool;

/// Calls `ed25519_dalek::SigningKey::from_bytes(seed).verifying_key().to_bytes()`:
/// the public key of a seed. A key derived this way always decodes.
#[verifier::external_body]
pub(crate) fn ed25519_public(seed: &[u8; 32]) -> (r: [u8; 32])
    ensures
        r@ == spec_ed25519_public(seed@),
        spec_ed25519_point_valid(r@),
{
    ed25519_dalek::SigningKey::from_bytes(seed).verifying_key().to_bytes()
}

/// Calls `ed25519_dalek::VerifyingKey::from_bytes` and reports whether it
/// succeeded.
#[verifier::external_body]
pub(crate) fn ed25519_point_valid(public: &[u8; 32]) -> (r: bool)
    ensures
        r == spec_ed25519_point_valid(public@),
{
    ed25519_dalek::VerifyingKey::from_bytes(public).is_ok()
}

/// Calls `Signer::sign` of `ed25519_dalek::SigningKey`: the deterministic
/// signature of `msg`, which verifies under the seed's public key.
#[verifier::external_body]
pub(crate) fn ed25519_sign(seed: &[u8; 32], msg: &[u8]) -> (r: [u8; 64])
    ensures
        r@ == spec_ed25519_sign(seed@, msg@),
        spec_ed25519_verify(spec_ed25519_public(seed@), msg@, r@),
{
    ed25519_dalek::SigningKey::from_bytes(seed).sign(msg).to_bytes()
}

/// Calls `ed25519_dalek::VerifyingKey::from_bytes` and then `Verifier::verify`:
/// true when the key decodes and the signature verifies.
#[verifier::external_body]
pub(crate) fn ed25519_verify(public: &[u8; 32], msg: &[u8], sig: &[u8; 64]) -> (r: bool)
    ensures
        r == (spec_ed25519_point_valid(public@) && spec_ed25519_verify(public@, msg@, sig@)),
{
    match ed25519_dalek::VerifyingKey::from_bytes(public) {
        Ok(vk) => vk.verify(msg, &ed25519_dalek::Signature::from_bytes(sig)).is_ok(),
        Err(_) => false,
    }
}

/// Calls `ed25519_dalek::SigningKey::sign_prehashed` with a SHA-512 state fed
/// with `context` then `msg`, and `context` as the Ed25519ph context. The
/// crate refuses contexts longer than 255 bytes and nothing else; the
/// signature verifies under the seed's public key.
#[verifier::external_body]
pub(crate) fn ed25519ph_sign(seed: &[u8; 32], context: &[u8], msg: &[u8]) -> (r: Option<[u8; 64]>)
    ensures
        r is Some <==> context@.len() <= 255,
        r matches Some(s) ==> s@ == spec_ed25519ph_sign(seed@, context@, msg@)
            && spec_ed25519ph_verify(spec_ed25519_public(seed@), context@, msg@, s@),
{
    let prehash = sha2::Sha512::new().chain_update(context).chain_update(msg);
    match ed25519_dalek::SigningKey::from_bytes(seed).sign_prehashed(prehash, Some(context)) {
        Ok(sig) => Some(sig.to_bytes()),
        Err(_) => None,
    }
}

/// Calls `ed25519_dalek::VerifyingKey::from_bytes` and then
/// `verify_prehashed` with a SHA-512 state fed with `context` then `msg`:
/// true when the key decodes and the signature verifies. The crate
/// asserts (in debug builds) that the context is at most 255 bytes.
#[verifier::external_body]
pub(crate) fn ed25519ph_verify(public: &[u8; 32], context: &[u8], msg: &[u8], sig: &[u8; 64]) -> (r: bool)
    requires
        context@.len() <= 255,
    ensures
        r == (spec_ed25519_point_valid(public@) && spec_ed25519ph_verify(public@, context@, msg@, sig@)),
{
    let prehash = sha2::Sha512::new().chain_update(context).chain_update(msg);
    match ed25519_dalek::VerifyingKey::from_bytes(public) {
        Ok(vk) => vk.verify_prehashed(prehash, Some(context), &ed25519_dalek::Signature::from_bytes(sig)).is_ok(),
        Err(_) => false,
    }
}

// ---------------------------------------------------------------------
// ML-DSA-65

/// Encoded verifying key of the ML-DSA-65 key generated from `seed`.
pub uninterp spec fn spec_mldsa65_public(seed: Seq<u8>) -> Seq<u8>;

/// Deterministic ML-DSA-65 signature (empty context) of `msg` under the
/// key generated from `seed`; `None` when the signing loop gives up.
pub uninterp spec fn spec_mldsa65_sign(seed: Seq<u8>, msg: Seq<u8>) -> Option<Seq<u8>>;

/// Whether `sig` decodes as an ML-DSA-65 signature.
pub uninterp spec fn spec_mldsa65_sig_decodes(sig: Seq<u8>) -> bool;

/// Whether the decoded `sig` is a valid ML-DSA-65 signature (empty
/// context) of `msg` under `public`.
pub uninterp spec fn spec_mldsa65_verify(public: Seq<u8>, msg: Seq<u8>, sig: Seq<u8>) -> bool;

/// Calls `ml_dsa::SigningKey::<MlDsa65>::from_seed(seed).verifying_key().encode()`.
#[verifier::external_body]
pub(crate) fn mldsa65_public(seed: &[u8; 32]) -> (r: [u8; 1952])
    ensures
        r@ == spec_mldsa65_public(seed@),
{
    let sk = ml_dsa::SigningKey::<ml_dsa::MlDsa65>::from_seed(&ml_dsa::Seed::from(*seed));
    sk.verifying_key().encode().into()
}

/// Calls `Signer::try_sign` of `ml_dsa::SigningKey::<MlDsa65>` (the
/// deterministic variant) and encodes the result. A signature it returns
/// decodes and verifies under the seed's public key.
#[verifier::external_body]
pub(crate) fn mldsa65_sign(seed: &[u8; 32], msg: &[u8]) -> (r: Option<[u8; 3309]>)
    ensures
        match spec_mldsa65_sign(seed@, msg@) {
            Some(s) => r matches Some(a) && a@ == s,
            None => r is None,
        },
        r matches Some(a) ==> spec_mldsa65_sig_decodes(a@)
            && spec_mldsa65_verify(spec_mldsa65_public(seed@), msg@, a@),
{
    let sk = ml_dsa::SigningKey::<ml_dsa::MlDsa65>::from_seed(&ml_dsa::Seed::from(*seed));
    match ml_dsa::signature::Signer::<ml_dsa::Signature<ml_dsa::MlDsa65>>::try_sign(&sk, msg) {
        Ok(sig) => Some(sig.encode().into()),
        Err(_) => None,
    }
}

/// Calls `ml_dsa::Signature::<MlDsa65>::decode` and reports whether it
/// succeeded.
#[verifier::external_body]
pub(crate) fn mldsa65_sig_decodes(sig: &[u8; 3309]) -> (r: bool)
    ensures
        r == spec_mldsa65_sig_decodes(sig@),
{
    ml_dsa::Signature::<ml_dsa::MlDsa65>::decode(&ml_dsa::EncodedSignature::<ml_dsa::MlDsa65>::from(*sig)).is_some()
}

/// Calls `ml_dsa::VerifyingKey::<MlDsa65>::decode`, `Signature::decode` and
/// `Verifier::verify`: true when the signature decodes and verifies.
#[verifier::external_body]
pub(crate) fn mldsa65_verify(public: &[u8; 1952], msg: &[u8], sig: &[u8; 3309]) -> (r: bool)
    ensures
        r == (spec_mldsa65_sig_decodes(sig@) && spec_mldsa65_verify(public@, msg@, sig@)),
{
    let vk = ml_dsa::VerifyingKey::<ml_dsa::MlDsa65>::decode(&ml_dsa::EncodedVerifyingKey::<ml_dsa::MlDsa65>::from(*public));
    match ml_dsa::Signature::<ml_dsa::MlDsa65>::decode(&ml_dsa::EncodedSignature::<ml_dsa::MlDsa65>::from(*sig)) {
        Some(s) => ml_dsa::signature::Verifier::verify(&vk, msg, &s).is_ok(),
        None => false,
    }
}

// ---------------------------------------------------------------------
// Randomness, authenticated encryption, key wrapping, zeroisation

/// Calls `rand_core::OsRng.fill_bytes` on `n` bytes. Nothing is promised of
/// their values. It panics where the operating system's generator fails,
/// which no argument rules out.
#[verifier::external_body]
pub(crate) fn random_bytes(n: usize) -> (r: Vec<u8>)
    requires
        n <= isize::MAX,
    ensures
        r@.len() == n,
{
    let mut v = vec![0u8; n];
    rand_core::OsRng.fill_bytes(&mut v);
    v
}

/// XChaCha20-Poly1305 encryption of `plaintext` under `key` and `nonce`
/// (no associated data); `None` when the crate refuses the length.
pub uninterp spec fn spec_xchacha_seal(key: Seq<u8>, nonce: Seq<u8>, plaintext: Seq<u8>) -> Option<Seq<u8>>;

/// XChaCha20-Poly1305 decryption; `None` when authentication fails.
pub uninterp spec fn spec_xchacha_open(key: Seq<u8>, nonce: Seq<u8>, ciphertext: Seq<u8>) -> Option<Seq<u8>>;

/// Longest plaintext XChaCha20-Poly1305 encrypts: the 32-bit block
/// counter allows `u32::MAX` blocks of 64 bytes, less one byte.
pub const XCHACHA_MAX_PLAINTEXT: u64 = 274877906879;

/// Calls `Aead::encrypt` of `chacha20poly1305::XChaCha20Poly1305`. It fails
/// only on a plaintext of `u32::MAX` blocks of 64 bytes or more; the
/// ciphertext is the plaintext's length plus the 16-byte tag; what it
/// seals opens again under the same key and nonce. (It reserves room for
/// the tag first, hence the bound on the length.)
#[verifier::external_body]
pub(crate) fn xchacha_seal(key: &[u8; 32], nonce: &[u8; 24], plaintext: &[u8]) -> (r: Option<Vec<u8>>)
    requires
        plaintext@.len() + 16 <= isize::MAX,
    ensures
        match spec_xchacha_seal(key@, nonce@, plaintext@) {
            Some(c) => r matches Some(v) && v@ == c,
            None => r is None,
        },
        r is Some <==> plaintext@.len() <= XCHACHA_MAX_PLAINTEXT,
        r matches Some(v) ==> v@.len() == plaintext@.len() + 16
            && spec_xchacha_open(key@, nonce@, v@) == Some(plaintext@),
{
    let cipher = chacha20poly1305::XChaCha20Poly1305::new(key.into());
    match cipher.encrypt(chacha20poly1305::XNonce::from_slice(nonce), plaintext) {
        Ok(c) => Some(c),
        Err(_) => None,
    }
}

/// Calls `Aead::decrypt` of `chacha20poly1305::XChaCha20Poly1305`.
#[verifier::external_body]
pub(crate) fn xchacha_open(key: &[u8; 32], nonce: &[u8; 24], ciphertext: &[u8]) -> (r: Option<Vec<u8>>)
    ensures
        match spec_xchacha_open(key@, nonce@, ciphertext@) {
            Some(p) => r matches Some(v) && v@ == p,
            None => r is None,
        },
{
    let cipher = chacha20poly1305::XChaCha20Poly1305::new(key.into());
    match cipher.decrypt(chacha20poly1305::XNonce::from_slice(nonce), ciphertext) {
        Ok(p) => Some(p),
        Err(_) => None,
    }
}

/// HPKE base-mode single-shot opening (X25519-HKDF-SHA256, HKDF-SHA384,
/// AES-256-GCM, empty associated data); `None` when a key does not
/// deserialize or opening fails.
pub uninterp spec fn spec_hpke_open(sk: Seq<u8>, encapped: Seq<u8>, info: Seq<u8>, ciphertext: Seq<u8>) -> Option<Seq<u8>>;

/// X25519 public key of the HPKE private key `sk`.
pub uninterp spec fn spec_x25519_public(sk: Seq<u8>) -> Seq<u8>;

/// Calls `Kem::sk_to_pk` of `hpke::kem::X25519HkdfSha256` on the private
/// key deserialized from `sk` (32 bytes always deserialize: they are
/// clamped, never refused).
#[verifier::external_body]
pub(crate) fn x25519_public(sk: &[u8; 32]) -> (r: [u8; 32])
    ensures
        r@ == spec_x25519_public(sk@),
{
    let k = <hpke::kem::X25519HkdfSha256 as Kem>::PrivateKey::from_bytes(sk).unwrap();
    let mut out = [0u8; 32];
    out.copy_from_slice(&<hpke::kem::X25519HkdfSha256 as Kem>::sk_to_pk(&k).to_bytes());
    out
}

/// Calls `hpke::single_shot_seal` (X25519-HKDF-SHA256, HKDF-SHA384,
/// AES-256-GCM, base mode, empty associated data) with the system random
/// generator, and serializes the encapsulated key. The encapsulation
/// depends on chance; what it seals opens again, with the same `info`,
/// under any private key whose public key is `recipient_pk`.
#[verifier::external_body]
pub(crate) fn hpke_seal(recipient_pk: &[u8; 32], info: &[u8], plaintext: &[u8]) -> (r: Option<(Vec<u8>, Vec<u8>)>)
    ensures
        r matches Some((enc, ct)) ==> forall|sk: Seq<u8>| sk.len() == 32 && #[trigger] spec_x25519_public(sk) == recipient_pk@
            ==> spec_hpke_open(sk, enc@, info@, ct@) == Some(plaintext@),
{
    let pk = match <hpke::kem::X25519HkdfSha256 as Kem>::PublicKey::from_bytes(recipient_pk) {
        Ok(pk) => pk,
        Err(_) => return None,
    };
    match hpke::single_shot_seal::<hpke::aead::AesGcm256, hpke::kdf::HkdfSha384, hpke::kem::X25519HkdfSha256>(
        &hpke::OpModeS::Base, &pk, info, plaintext, b"") {
        Ok((enc, ct)) => Some((enc.to_bytes().to_vec(), ct)),
        Err(_) => None,
    }
}

/// Calls `hpke::single_shot_open` with the same suite, after deserializing
/// the private key and the encapsulated key.
#[verifier::external_body]
pub(crate) fn hpke_open(sk: &[u8; 32], encapped: &[u8], info: &[u8], ciphertext: &[u8]) -> (r: Option<Vec<u8>>)
    ensures
        match spec_hpke_open(sk@, encapped@, info@, ciphertext@) {
            Some(p) => r matches Some(v) && v@ == p,
            None => r is None,
        },
{
    match (<hpke::kem::X25519HkdfSha256 as Kem>::PrivateKey::from_bytes(sk),
        <hpke::kem::X25519HkdfSha256 as Kem>::EncappedKey::from_bytes(encapped)) {
        (Ok(k), Ok(enc)) => hpke::single_shot_open::<hpke::aead::AesGcm256, hpke::kdf::HkdfSha384, hpke::kem::X25519HkdfSha256>(
            &hpke::OpModeR::Base, &k, &enc, info, ciphertext, b"").ok(),
        _ => None,
    }
}

/// Calls `Zeroize::zeroize` on a 32-byte array, which overwrites every
/// byte with zero.
#[verifier::external_body]
pub(crate) fn zeroize32(bytes: &mut [u8; 32])
    ensures
        forall|i: int| 0 <= i < 32 ==> final(bytes)@[i] == 0u8,
{
    bytes.zeroize();
}

} // verus!
