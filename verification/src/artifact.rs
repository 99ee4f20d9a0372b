//! Content-addressed artifacts, identified by the BLAKE3 hash of their bytes.
use vstd::prelude::*;
use crate::crypto::spec_blake3;
use crate::error::{Error, ErrorKind, Result, crypto_error};
use crate::hash;

verus! {

/// An artifact, held as the 32-byte BLAKE3 hash of its content.
#[derive(Debug, Clone, Copy, PartialEq, Eq)]
pub struct Artifact {
    hash: [u8; 32],
}

impl View for Artifact {
    type V = Seq<u8>;

    closed spec fn view(&self) -> Seq<u8> {
        self.hash@
    }
}

impl Artifact {
    /// The artifact whose content is `data`.
    pub fn new(data: &[u8]) -> (r: Self)
        ensures
            r@ == spec_blake3(data@),
    {
        Artifact { hash: hash::blake3(data) }
    }

    /// The artifact with the given content hash.
    pub fn from_hash(hash: [u8; 32]) -> (r: Self)
        ensures
            r@ == hash@,
    {
        Artifact { hash }
    }

    /// The artifact's content hash.
    pub fn hash(&self) -> (r: &[u8; 32])
        ensures
            r@ == self@,
    {
        &self.hash
    }

    /// Whether `data` is this artifact's content.
    pub fn verify(&self, data: &[u8]) -> (r: bool)
        ensures
            r == (spec_blake3(data@) == self@),
    {
        hash::verify_content_hash(&self.hash, data)
    }

    /// Checks that `data` is this artifact's content; a mismatch is a
    /// `Crypto` error.
    pub fn verify_strict(&self, data: &[u8]) -> (r: Result<()>)
        ensures
            r is Ok <==> spec_blake3(data@) == self@,
            r matches Err(e) ==> e.kind() == ErrorKind::Crypto,
            r matches Err(e) ==> (e matches Error::Crypto(m) && m@ == "artifact content hash mismatch"@),
    {
        if self.verify(data) {
            Ok(())
        } else {
            Err(crypto_error("artifact content hash mismatch"))
        }
    }
}

/// An artifact made from content verifies against that content.
pub proof fn law_artifact_verifies_own_content(data: Seq<u8>, a: Artifact)
    requires
        a@ == spec_blake3(data),
    ensures
        spec_blake3(data) == a@,
{
}

} // verus!
