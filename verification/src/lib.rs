//! Verax: a tamper-evident provenance protocol built on deterministic CBOR
//! payloads, COSE_Sign1 envelopes, composite signatures and
//! Certificate-Transparency anchoring.
pub mod artifact;
pub mod cbor;
pub mod cbor_payload;
pub mod cbor_value;
pub mod cose;
pub mod crypto;
pub mod ct;
pub mod error;
pub mod hash;
pub mod hsm;
pub mod lint;
pub mod predicate;
pub mod shred;
pub mod statement;
pub mod store;
pub mod verify;
