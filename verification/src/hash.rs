//! BLAKE3 hashing of artifacts and statements.
use vstd::prelude::*;
use crate::cbor_payload::bytes_eq;
use crate::crypto::{blake3_derive, blake3_hash, spec_blake3, spec_blake3_derive_key};

verus! {

/// Length in bytes of every hash the protocol uses.
pub const HASH_SIZE: usize = 32;

/// BLAKE3 digest of `data`.
pub fn blake3(data: &[u8]) -> (r: [u8; 32])
    ensures
        r@ == spec_blake3(data@),
{
    blake3_hash(data)
}

/// BLAKE3 key derivation: 32 bytes derived from `key_material` in the
/// domain named by `context`.
pub fn blake3_derive_key(context: &str, key_material: &[u8]) -> (r: [u8; 32])
    ensures
        r@ == spec_blake3_derive_key(context@, key_material@),
{
    blake3_derive(context, key_material)
}

/// Content hash of an artifact: its BLAKE3 digest.
pub fn hash_artifact(data: &[u8]) -> (r: [u8; 32])
    ensures
        r@ == spec_blake3(data@),
{
    blake3_hash(data)
}

/// Whether `data` hashes to `expected`.
pub fn verify_content_hash(expected: &[u8; 32], data: &[u8]) -> (r: bool)
    ensures
        r == (spec_blake3(data@) == expected@),
{
    let h = blake3_hash(data);
    bytes_eq(h.as_slice(), expected.as_slice())
}

} // verus!
