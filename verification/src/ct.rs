//! Certificate-Transparency anchoring: Merkle inclusion proofs (SHA-256,
//! RFC 6962 leaf and node prefixes), signed tree heads, their CBOR forms,
//! and the temporal anchor carried in an envelope's unprotected header.
use vstd::prelude::*;
use crate::cbor::{MAX_BSTR_LENGTH, lemma_bstr_roundtrip, lemma_head_roundtrip, lemma_split};
use crate::cbor::{
    MAJOR_ARRAY, MAJOR_BSTR, MAJOR_MAP, MAJOR_TSTR, MAJOR_UINT, append_bytes, decode_array_len, decode_bstr,
    decode_map_len, decode_text_string, decode_uint, encode_uint, encode_uint_head, skip_value,
    spec_decode_head, spec_decode_string, spec_encode_bstr, spec_encode_head, spec_skip,
};
use crate::cbor_payload::{bytes_eq, encode_guardians, field_bstr, field_uint, lemma_encode_guardians_push, to_array32};
use crate::cose::{extract_unprotected, spec_parse_cose};
use crate::crypto::{ed25519_point_valid, ed25519_verify, sha256, spec_blake3, spec_ed25519_point_valid,
    spec_ed25519_verify, spec_sha256};
use crate::error::{Error, ErrorKind, Result, crypto_error, log_proof_error};
use crate::hash::blake3;

verus! {

/// Merkle inclusion proof of a leaf in a transparency log.
#[derive(Debug, Clone, PartialEq, Eq)]
pub struct LogInclusionProof {
    /// Index of the leaf in the tree.
    pub leaf_index: u64,
    /// Sibling hashes from the leaf up to the root.
    pub siblings: Vec<[u8; 32]>,
}

/// Signed tree head of a transparency log.
#[derive(Debug, Clone, PartialEq, Eq)]
pub struct SignedTreeHead {
    /// Unix time of the tree head, in seconds.
    pub timestamp: u64,
    /// Number of leaves in the tree.
    pub tree_size: u64,
    /// Merkle root hash.
    pub root_hash: [u8; 32],
    /// Ed25519 signature of the log over timestamp, tree size and root.
    pub signature: Vec<u8>,
    /// Public key of the log.
    pub log_pubkey: Vec<u8>,
    /// Identifier of the log: BLAKE3 of its public key.
    pub log_id: Vec<u8>,
    /// Tree hash algorithm (0 is SHA-256, the only one supported).
    pub tree_hash_algorithm: u64,
}

/// Inclusion proof together with the tree head it leads to.
#[derive(Debug, Clone, PartialEq, Eq)]
pub struct TemporalAnchor {
    /// Proof that the statement is a leaf of the log.
    pub inclusion_proof: LogInclusionProof,
    /// Tree head the proof leads to.
    pub signed_tree_head: SignedTreeHead,
}

/// Model of an inclusion proof.
pub struct ProofModel {
    pub leaf_index: u64,
    pub siblings: Seq<Seq<u8>>,
}

/// Model of a signed tree head.
pub struct SthModel {
    pub timestamp: u64,
    pub tree_size: u64,
    pub root_hash: Seq<u8>,
    pub signature: Seq<u8>,
    pub log_pubkey: Seq<u8>,
    pub log_id: Seq<u8>,
    pub tree_hash_algorithm: u64,
}

/// Model of a temporal anchor.
pub struct AnchorModel {
    pub proof: ProofModel,
    pub sth: SthModel,
}

/// Views of 32-byte hashes.
pub open spec fn hashes_view(v: Seq<[u8; 32]>) -> Seq<Seq<u8>> {
    v.map_values(|h: [u8; 32]| h@)
}

impl View for LogInclusionProof {
    type V = ProofModel;

    open spec fn view(&self) -> ProofModel {
        ProofModel { leaf_index: self.leaf_index, siblings: hashes_view(self.siblings@) }
    }
}

impl View for SignedTreeHead {
    type V = SthModel;

    open spec fn view(&self) -> SthModel {
        SthModel {
            timestamp: self.timestamp,
            tree_size: self.tree_size,
            root_hash: self.root_hash@,
            signature: self.signature@,
            log_pubkey: self.log_pubkey@,
            log_id: self.log_id@,
            tree_hash_algorithm: self.tree_hash_algorithm,
        }
    }
}

impl View for TemporalAnchor {
    type V = AnchorModel;

    open spec fn view(&self) -> AnchorModel {
        AnchorModel { proof: self.inclusion_proof@, sth: self.signed_tree_head@ }
    }
}

// ---------------------------------------------------------------------
// Merkle proofs

/// Hash of a leaf: SHA-256 of `0x00` followed by the leaf.
pub open spec fn spec_leaf_hash(leaf: Seq<u8>) -> Seq<u8> {
    spec_sha256(seq![0x00u8] + leaf)
}

/// Hash of an inner node: SHA-256 of `0x01`, the left and the right child.
pub open spec fn spec_node_hash(left: Seq<u8>, right: Seq<u8>) -> Seq<u8> {
    spec_sha256(seq![0x01u8] + left + right)
}

/// Folding the siblings into `cur`, bottom up; bit by bit, `idx` says
/// whether the current node is a left (even) or right (odd) child.
pub open spec fn spec_fold_root(cur: Seq<u8>, idx: u64, siblings: Seq<Seq<u8>>) -> Seq<u8>
    decreases siblings.len(),
{
    if siblings.len() == 0 {
        cur
    } else {
        let next = if idx % 2 == 0 { spec_node_hash(cur, siblings[0]) } else { spec_node_hash(siblings[0], cur) };
        spec_fold_root(next, idx / 2, siblings.drop_first())
    }
}

/// Root that a proof computes for the leaf `leaf`.
pub open spec fn spec_compute_root(p: ProofModel, leaf: Seq<u8>) -> Seq<u8> {
    spec_fold_root(spec_leaf_hash(leaf), p.leaf_index, p.siblings)
}

/// Number of nodes at the bottom of a full binary tree of height `d`.
pub open spec fn full_width(d: nat) -> nat
    decreases d,
{
    if d == 0 { 1 } else { 2 * full_width((d - 1) as nat) }
}

/// The level of a tree above the level `hs`: each pair of neighbouring
/// nodes, hashed together.
pub open spec fn spec_parent_level(hs: Seq<Seq<u8>>) -> Seq<Seq<u8>> {
    Seq::new(hs.len() / 2, |j: int| spec_node_hash(hs[2 * j], hs[2 * j + 1]))
}

/// Root of the full tree of height `d` whose bottom level is `hs`.
pub open spec fn spec_tree_root(hs: Seq<Seq<u8>>, d: nat) -> Seq<u8>
    decreases d,
{
    if d == 0 { hs[0] } else { spec_tree_root(spec_parent_level(hs), (d - 1) as nat) }
}

/// Audit path of node `i` of the bottom level `hs` of a full tree of
/// height `d`, bottom up: the other node of its pair, then the audit path
/// of its parent in the level above.
pub open spec fn spec_audit_path(hs: Seq<Seq<u8>>, i: int, d: nat) -> Seq<Seq<u8>>
    decreases d,
{
    if d == 0 {
        Seq::empty()
    } else {
        let sibling = if i % 2 == 0 { hs[i + 1] } else { hs[i - 1] };
        seq![sibling] + spec_audit_path(spec_parent_level(hs), i / 2, (d - 1) as nat)
    }
}

proof fn lemma_audit_path_folds_to_root(hs: Seq<Seq<u8>>, i: u64, d: nat)
    requires
        hs.len() == full_width(d),
        i < hs.len(),
    ensures
        spec_fold_root(hs[i as int], i, spec_audit_path(hs, i as int, d)) == spec_tree_root(hs, d),
    decreases d,
{
    if d > 0 {
        let up = spec_parent_level(hs);
        let path = spec_audit_path(hs, i as int, d);
        let rest = spec_audit_path(up, i as int / 2, (d - 1) as nat);
        assert(path.drop_first() =~= rest);
        assert(up.len() == full_width((d - 1) as nat));
        let j: u64 = i / 2;
        assert(j as int == i as int / 2);
        if i % 2 == 0 {
            assert(2 * j == i);
        } else {
            assert(2 * j + 1 == i);
        }
        assert(up[j as int] == spec_node_hash(hs[2 * j], hs[2 * j + 1]));
        lemma_audit_path_folds_to_root(up, j, (d - 1) as nat);
    }
}

/// The audit path of any leaf of a full tree of `2^d` leaves leads to the
/// tree's root: leaves hashed with `spec_leaf_hash`, pairs of nodes with
/// `spec_node_hash`, the sibling on the left at each level where the
/// corresponding bit of the leaf's index is 1.
pub proof fn law_inclusion_proof_of_full_tree(leaves: Seq<Seq<u8>>, d: nat, i: u64)
    requires
        leaves.len() == full_width(d),
        i < leaves.len(),
    ensures
        ({
            let hs = leaves.map_values(|l: Seq<u8>| spec_leaf_hash(l));
            spec_compute_root(ProofModel { leaf_index: i, siblings: spec_audit_path(hs, i as int, d) }, leaves[i as int])
                == spec_tree_root(hs, d)
        }),
{
    let hs = leaves.map_values(|l: Seq<u8>| spec_leaf_hash(l));
    lemma_audit_path_folds_to_root(hs, i, d);
}

fn node_hash(left: &[u8; 32], right: &[u8; 32]) -> (r: [u8; 32])
    ensures
        r@ == spec_node_hash(left@, right@),
{
    let mut buf: Vec<u8> = Vec::new();
    buf.push(0x01);
    append_bytes(&mut buf, left.as_slice());
    append_bytes(&mut buf, right.as_slice());
    assert(buf@ =~= seq![0x01u8] + left@ + right@);
    sha256(buf.as_slice())
}

impl LogInclusionProof {
    /// Root hash this proof leads to from `leaf_hash`.
    pub fn compute_root(&self, leaf_hash: &[u8; 32]) -> (r: [u8; 32])
        ensures
            r@ == spec_compute_root(self@, leaf_hash@),
    {
        let mut buf: Vec<u8> = Vec::new();
        buf.push(0x00);
        append_bytes(&mut buf, leaf_hash.as_slice());
        assert(buf@ =~= seq![0x00u8] + leaf_hash@);
        let mut current = sha256(buf.as_slice());
        let mut idx = self.leaf_index;
        let ghost sibs = hashes_view(self.siblings@);
        assert(sibs.subrange(0, sibs.len() as int) =~= sibs);
        let mut i: usize = 0;
        while i < self.siblings.len()
            invariant
                i <= self.siblings@.len(),
                sibs == hashes_view(self.siblings@),
                spec_fold_root(current@, idx, sibs.subrange(i as int, sibs.len() as int))
                    == spec_compute_root(self@, leaf_hash@),
            decreases self.siblings@.len() - i,
        {
            let ghost rest = sibs.subrange(i as int, sibs.len() as int);
            assert(rest[0] == self.siblings@[i as int]@);
            assert(rest.drop_first() =~= sibs.subrange(i + 1, sibs.len() as int));
            if idx % 2 == 0 {
                current = node_hash(&current, &self.siblings[i]);
            } else {
                current = node_hash(&self.siblings[i], &current);
            }
            idx = idx / 2;
            i = i + 1;
        }
        assert(sibs.subrange(i as int, sibs.len() as int) =~= Seq::<Seq<u8>>::empty());
        current
    }

    /// Whether this proof leads from `leaf_hash` to `root`.
    pub fn verify(&self, leaf_hash: &[u8; 32], root: &[u8; 32]) -> (r: bool)
        ensures
            r == (spec_compute_root(self@, leaf_hash@) == root@),
    {
        let computed = self.compute_root(leaf_hash);
        bytes_eq(computed.as_slice(), root.as_slice())
    }
}

// ---------------------------------------------------------------------
// CBOR forms

/// CBOR form of an inclusion proof: `{1: leaf_index, 2: [* bstr .size 32]}`.
pub open spec fn spec_proof_cbor(p: ProofModel) -> Seq<u8> {
    spec_encode_head(MAJOR_MAP, 2) + spec_encode_head(MAJOR_UINT, 1) + spec_encode_head(MAJOR_UINT, p.leaf_index)
        + spec_encode_head(MAJOR_UINT, 2) + spec_encode_head(MAJOR_ARRAY, p.siblings.len() as u64)
        + encode_guardians(p.siblings)
}

/// CBOR form of a signed tree head: a map with keys 1 to 7.
pub open spec fn spec_sth_cbor(s: SthModel) -> Seq<u8> {
    spec_encode_head(MAJOR_MAP, 7)
        + field_uint(1, Some(s.timestamp)) + field_uint(2, Some(s.tree_size))
        + field_bstr(3, Some(s.root_hash)) + field_bstr(4, Some(s.signature))
        + field_bstr(5, Some(s.log_pubkey)) + field_bstr(6, Some(s.log_id))
        + field_uint(7, Some(s.tree_hash_algorithm))
}

fn encode_key_uint(buf: &mut Vec<u8>, key: u64, v: u64)
    ensures
        final(buf)@ == old(buf)@ + field_uint(key, Some(v)),
{
    encode_uint(buf, key);
    encode_uint(buf, v);
    assert(final(buf)@ =~= old(buf)@ + field_uint(key, Some(v)));
}

fn encode_key_bytes(buf: &mut Vec<u8>, key: u64, b: &[u8])
    ensures
        final(buf)@ == old(buf)@ + field_bstr(key, Some(b@)),
{
    encode_uint(buf, key);
    crate::cbor::encode_bstr(buf, b);
    assert(final(buf)@ =~= old(buf)@ + field_bstr(key, Some(b@)));
}

/// Decoding of `n` more 32-byte sibling hashes at `off`, after `acc`.
pub open spec fn spec_decode_siblings(data: Seq<u8>, off: int, n: nat, acc: Seq<Seq<u8>>)
    -> core::result::Result<(Seq<Seq<u8>>, int), ErrorKind>
    decreases n,
{
    if n == 0 {
        Ok((acc, off))
    } else {
        match spec_decode_string(data, off, 2) {
            None => Err(ErrorKind::Decode),
            Some((b, o)) => if b.len() != 32 {
                Err(ErrorKind::InvalidLogProof)
            } else {
                spec_decode_siblings(data, o, (n - 1) as nat, acc.push(b))
            },
        }
    }
}

/// Decoding of the value of proof entry `key` at `off`: key 1 sets the
/// leaf index, key 2 appends siblings, other keys are skipped.
pub open spec fn spec_proof_field(data: Seq<u8>, off: int, key: u64, st: ProofModel)
    -> core::result::Result<(ProofModel, int), ErrorKind>
{
    if key == 1 {
        match spec_decode_head(data, off, 0) {
            None => Err(ErrorKind::Decode),
            Some((v, o)) => Ok((ProofModel { leaf_index: v, ..st }, o)),
        }
    } else if key == 2 {
        match spec_decode_head(data, off, 4) {
            None => Err(ErrorKind::Decode),
            Some((n, o)) => match spec_decode_siblings(data, o, n as nat, st.siblings) {
                Err(e) => Err(e),
                Ok((s, o2)) => Ok((ProofModel { siblings: s, ..st }, o2)),
            },
        }
    } else {
        match spec_skip(data, off, 0) {
            None => Err(ErrorKind::Decode),
            Some(o) => Ok((st, o)),
        }
    }
}

/// Decoding of `n` more proof entries at `off`.
pub open spec fn spec_proof_entries(data: Seq<u8>, off: int, n: nat, st: ProofModel)
    -> core::result::Result<(ProofModel, int), ErrorKind>
    decreases n,
{
    if n == 0 {
        Ok((st, off))
    } else {
        match spec_decode_head(data, off, 0) {
            None => Err(ErrorKind::Decode),
            Some((key, o)) => match spec_proof_field(data, o, key, st) {
                Err(e) => Err(e),
                Ok((st2, o2)) => spec_proof_entries(data, o2, (n - 1) as nat, st2),
            },
        }
    }
}

/// Decoding of an inclusion proof map at `off`; absent fields default to
/// index 0 and no siblings.
pub open spec fn spec_proof_from_cbor(data: Seq<u8>, off: int) -> core::result::Result<(ProofModel, int), ErrorKind> {
    match spec_decode_head(data, off, 5) {
        None => Err(ErrorKind::Decode),
        Some((n, o)) => spec_proof_entries(data, o, n as nat, ProofModel { leaf_index: 0, siblings: Seq::empty() }),
    }
}

/// The tree head with integer field `key` (1 timestamp, 2 tree size, 7
/// tree hash algorithm) set to `v`.
pub open spec fn sth_set_uint(st: SthModel, key: u64, v: u64) -> SthModel {
    if key == 1 {
        SthModel { timestamp: v, ..st }
    } else if key == 2 {
        SthModel { tree_size: v, ..st }
    } else {
        SthModel { tree_hash_algorithm: v, ..st }
    }
}

/// The tree head with byte-string field `key` (3 root hash, 4 signature,
/// 5 log public key, 6 log id) set to `b`.
pub open spec fn sth_set_bytes(st: SthModel, key: u64, b: Seq<u8>) -> SthModel {
    if key == 3 {
        SthModel { root_hash: b, ..st }
    } else if key == 4 {
        SthModel { signature: b, ..st }
    } else if key == 5 {
        SthModel { log_pubkey: b, ..st }
    } else {
        SthModel { log_id: b, ..st }
    }
}

/// Decoding of the value of tree-head entry `key` at `off`.
pub open spec fn spec_sth_field(data: Seq<u8>, off: int, key: u64, st: SthModel)
    -> core::result::Result<(SthModel, int), ErrorKind>
{
    if key == 1 || key == 2 || key == 7 {
        match spec_decode_head(data, off, 0) {
            None => Err(ErrorKind::Decode),
            Some((v, o)) => Ok((sth_set_uint(st, key, v), o)),
        }
    } else if key == 3 || key == 4 || key == 5 || key == 6 {
        match spec_decode_string(data, off, 2) {
            None => Err(ErrorKind::Decode),
            Some((b, o)) => if key == 3 && b.len() != 32 {
                Err(ErrorKind::InvalidLogProof)
            } else {
                Ok((sth_set_bytes(st, key, b), o))
            },
        }
    } else {
        match spec_skip(data, off, 0) {
            None => Err(ErrorKind::Decode),
            Some(o) => Ok((st, o)),
        }
    }
}

/// Decoding of `n` more tree-head entries at `off`.
pub open spec fn spec_sth_entries(data: Seq<u8>, off: int, n: nat, st: SthModel)
    -> core::result::Result<(SthModel, int), ErrorKind>
    decreases n,
{
    if n == 0 {
        Ok((st, off))
    } else {
        match spec_decode_head(data, off, 0) {
            None => Err(ErrorKind::Decode),
            Some((key, o)) => match spec_sth_field(data, o, key, st) {
                Err(e) => Err(e),
                Ok((st2, o2)) => spec_sth_entries(data, o2, (n - 1) as nat, st2),
            },
        }
    }
}

/// Tree head before any entry is read.
pub open spec fn empty_sth() -> SthModel {
    SthModel {
        timestamp: 0,
        tree_size: 0,
        root_hash: Seq::new(32, |i: int| 0u8),
        signature: Seq::empty(),
        log_pubkey: Seq::empty(),
        log_id: Seq::empty(),
        tree_hash_algorithm: 0,
    }
}

/// Decoding of a tree-head map at `off`; a missing or empty log id
/// becomes the BLAKE3 hash of the log public key.
pub open spec fn spec_sth_from_cbor(data: Seq<u8>, off: int) -> core::result::Result<(SthModel, int), ErrorKind> {
    match spec_decode_head(data, off, 5) {
        None => Err(ErrorKind::Decode),
        Some((n, o)) => match spec_sth_entries(data, o, n as nat, empty_sth()) {
            Err(e) => Err(e),
            Ok((s, o2)) => Ok((
                if s.log_id.len() == 0 { SthModel { log_id: spec_blake3(s.log_pubkey), ..s } } else { s },
                o2,
            )),
        },
    }
}

fn encode_hash_list(buf: &mut Vec<u8>, hashes: &Vec<[u8; 32]>)
    ensures
        final(buf)@ == old(buf)@ + encode_guardians(hashes_view(hashes@)),
{
    let ghost start = buf@;
    let ghost hs = hashes_view(hashes@);
    let mut i: usize = 0;
    assert(hs.take(0) =~= Seq::<Seq<u8>>::empty());
    assert(buf@ =~= start + encode_guardians(hs.take(0)));
    while i < hashes.len()
        invariant
            i <= hashes@.len(),
            hs == hashes_view(hashes@),
            buf@ == start + encode_guardians(hs.take(i as int)),
        decreases hashes@.len() - i,
    {
        encode_uint_head(buf, MAJOR_BSTR, 32);
        append_bytes(buf, hashes[i].as_slice());
        proof {
            assert(hs.take(i as int + 1) =~= hs.take(i as int).push(hs[i as int]));
            lemma_encode_guardians_push(hs.take(i as int), hs[i as int]);
            assert(buf@ =~= start + encode_guardians(hs.take(i as int + 1)));
        }
        i = i + 1;
    }
    assert(hs.take(i as int) =~= hs);
}

fn decode_siblings(data: &[u8], offset: &mut usize, n: u64, siblings: &mut Vec<[u8; 32]>) -> (r: Result<()>)
    ensures
        match spec_decode_siblings(data@, *old(offset) as int, n as nat, hashes_view(old(siblings)@)) {
            Ok((s, o)) => r is Ok && hashes_view(final(siblings)@) == s && *final(offset) == o,
            Err(k) => r matches Err(e) && e.kind() == k,
        },
{
    let ghost o0 = *offset as int;
    let ghost acc0 = hashes_view(siblings@);
    let mut i: u64 = 0;
    while i < n
        invariant
            i <= n,
            o0 == *old(offset) as int,
            acc0 == hashes_view(old(siblings)@),
            spec_decode_siblings(data@, o0, n as nat, acc0)
                == spec_decode_siblings(data@, *offset as int, (n - i) as nat, hashes_view(siblings@)),
        decreases n - i,
    {
        let b = decode_bstr(data, offset)?;
        if b.len() != 32 {
            return Err(log_proof_error("sibling hash must be 32 bytes"));
        }
        let h = to_array32(b.as_slice());
        proof {
            assert(hashes_view(siblings@.push(h)) =~= hashes_view(siblings@).push(b@));
        }
        siblings.push(h);
        i = i + 1;
    }
    Ok(())
}

impl LogInclusionProof {
    /// CBOR form of the proof.
    pub fn to_cbor(&self) -> (r: Vec<u8>)
        ensures
            r@ == spec_proof_cbor(self@),
    {
        let mut buf: Vec<u8> = Vec::new();
        encode_uint_head(&mut buf, MAJOR_MAP, 2);
        encode_uint_head(&mut buf, MAJOR_UINT, 1);
        encode_uint(&mut buf, self.leaf_index);
        encode_uint_head(&mut buf, MAJOR_UINT, 2);
        encode_uint_head(&mut buf, MAJOR_ARRAY, self.siblings.len() as u64);
        encode_hash_list(&mut buf, &self.siblings);
        assert(buf@ =~= spec_proof_cbor(self@));
        buf
    }

    /// Reads a proof map at `*offset`; a sibling that is not 32 bytes long
    /// is an `InvalidLogProof` error.
    pub fn from_cbor(data: &[u8], offset: &mut usize) -> (r: Result<Self>)
        ensures
            match spec_proof_from_cbor(data@, *old(offset) as int) {
                Ok((m, o)) => r matches Ok(p) && p@ == m && *final(offset) == o,
                Err(k) => r matches Err(e) && e.kind() == k,
            },
    {
        let map_len = decode_map_len(data, offset)?;
        let ghost o1 = *offset as int;
        let mut leaf_index: u64 = 0;
        let mut siblings: Vec<[u8; 32]> = Vec::new();
        assert(hashes_view(siblings@) =~= Seq::<Seq<u8>>::empty());
        let mut i: u64 = 0;
        while i < map_len
            invariant
                i <= map_len,
                spec_decode_head(data@, *old(offset) as int, 5) == Some((map_len, o1)),
                spec_proof_entries(data@, o1, map_len as nat, ProofModel { leaf_index: 0, siblings: Seq::empty() })
                    == spec_proof_entries(data@, *offset as int, (map_len - i) as nat,
                        ProofModel { leaf_index, siblings: hashes_view(siblings@) }),
            decreases map_len - i,
        {
            let key = decode_uint(data, offset)?;
            if key == 1 {
                leaf_index = decode_uint(data, offset)?;
            } else if key == 2 {
                let n = decode_array_len(data, offset)?;
                decode_siblings(data, offset, n, &mut siblings)?;
            } else {
                skip_value(data, offset)?;
            }
            i = i + 1;
        }
        Ok(LogInclusionProof { leaf_index, siblings })
    }
}

impl SignedTreeHead {
    /// A tree head whose log id is the BLAKE3 hash of `log_pubkey` and
    /// whose tree hash algorithm is SHA-256 (0).
    pub fn new(timestamp: u64, tree_size: u64, root_hash: [u8; 32], signature: Vec<u8>, log_pubkey: Vec<u8>) -> (r: Self)
        ensures
            r.timestamp == timestamp,
            r.tree_size == tree_size,
            r.root_hash == root_hash,
            r.signature@ == signature@,
            r.log_pubkey@ == log_pubkey@,
            r.log_id@ == spec_blake3(log_pubkey@),
            r.tree_hash_algorithm == 0,
    {
        let log_id = blake3(log_pubkey.as_slice());
        let mut id: Vec<u8> = Vec::new();
        append_bytes(&mut id, log_id.as_slice());
        SignedTreeHead { timestamp, tree_size, root_hash, signature, log_pubkey, log_id: id, tree_hash_algorithm: 0 }
    }

    /// CBOR form of the tree head.
    pub fn to_cbor(&self) -> (r: Vec<u8>)
        ensures
            r@ == spec_sth_cbor(self@),
    {
        let mut buf: Vec<u8> = Vec::new();
        encode_uint_head(&mut buf, MAJOR_MAP, 7);
        encode_key_uint(&mut buf, 1, self.timestamp);
        encode_key_uint(&mut buf, 2, self.tree_size);
        encode_key_bytes(&mut buf, 3, self.root_hash.as_slice());
        encode_key_bytes(&mut buf, 4, self.signature.as_slice());
        encode_key_bytes(&mut buf, 5, self.log_pubkey.as_slice());
        encode_key_bytes(&mut buf, 6, self.log_id.as_slice());
        encode_key_uint(&mut buf, 7, self.tree_hash_algorithm);
        buf
    }

    /// Reads a tree-head map at `*offset`; a root hash that is not 32
    /// bytes long is an `InvalidLogProof` error.
    pub fn from_cbor(data: &[u8], offset: &mut usize) -> (r: Result<Self>)
        ensures
            match spec_sth_from_cbor(data@, *old(offset) as int) {
                Ok((m, o)) => r matches Ok(s) && s@ == m && *final(offset) == o,
                Err(k) => r matches Err(e) && e.kind() == k,
            },
    {
        let map_len = decode_map_len(data, offset)?;
        let ghost o1 = *offset as int;
        let mut st = SignedTreeHead {
            timestamp: 0,
            tree_size: 0,
            root_hash: [0u8; 32],
            signature: Vec::new(),
            log_pubkey: Vec::new(),
            log_id: Vec::new(),
            tree_hash_algorithm: 0,
        };
        assert(st.root_hash@ =~= Seq::new(32, |i: int| 0u8));
        assert(st.signature@ =~= Seq::<u8>::empty());
        assert(st.log_pubkey@ =~= Seq::<u8>::empty());
        assert(st.log_id@ =~= Seq::<u8>::empty());
        assert(st@ == empty_sth());
        let mut i: u64 = 0;
        while i < map_len
            invariant
                i <= map_len,
                spec_decode_head(data@, *old(offset) as int, 5) == Some((map_len, o1)),
                spec_sth_entries(data@, o1, map_len as nat, empty_sth())
                    == spec_sth_entries(data@, *offset as int, (map_len - i) as nat, st@),
            decreases map_len - i,
        {
            let key = decode_uint(data, offset)?;
            if key == 1 {
                st.timestamp = decode_uint(data, offset)?;
            } else if key == 2 {
                st.tree_size = decode_uint(data, offset)?;
            } else if key == 7 {
                st.tree_hash_algorithm = decode_uint(data, offset)?;
            } else if key == 3 {
                let b = decode_bstr(data, offset)?;
                if b.len() != 32 {
                    return Err(log_proof_error("root hash must be 32 bytes"));
                }
                st.root_hash = to_array32(b.as_slice());
            } else if key == 4 {
                st.signature = decode_bstr(data, offset)?;
            } else if key == 5 {
                st.log_pubkey = decode_bstr(data, offset)?;
            } else if key == 6 {
                st.log_id = decode_bstr(data, offset)?;
            } else {
                skip_value(data, offset)?;
            }
            i = i + 1;
        }
        if st.log_id.len() == 0 {
            let id = blake3(st.log_pubkey.as_slice());
            let mut v: Vec<u8> = Vec::new();
            append_bytes(&mut v, id.as_slice());
            st.log_id = v;
        }
        Ok(st)
    }
}

// ---------------------------------------------------------------------
// Reading back what was written

/// Inclusion proofs whose CBOR form reads back: every sibling 32 bytes.
pub open spec fn proof_encodable(p: ProofModel) -> bool {
    &&& p.siblings.len() <= u64::MAX
    &&& forall|i: int| 0 <= i < p.siblings.len() ==> (#[trigger] p.siblings[i]).len() == 32
}

/// Tree heads whose CBOR form reads back: a 32-byte root hash and the
/// other byte strings within the decoder's limit.
pub open spec fn sth_encodable(s: SthModel) -> bool {
    &&& s.root_hash.len() == 32
    &&& s.signature.len() <= MAX_BSTR_LENGTH
    &&& s.log_pubkey.len() <= MAX_BSTR_LENGTH
    &&& s.log_id.len() <= MAX_BSTR_LENGTH
}

/// A tree head as its CBOR form reads back: an empty log id becomes the
/// BLAKE3 hash of the log public key.
pub open spec fn sth_read_back(s: SthModel) -> SthModel {
    if s.log_id.len() == 0 { SthModel { log_id: spec_blake3(s.log_pubkey), ..s } } else { s }
}

proof fn lemma_siblings_roundtrip(data: Seq<u8>, off: int, hs: Seq<Seq<u8>>, acc: Seq<Seq<u8>>)
    requires
        forall|i: int| 0 <= i < hs.len() ==> (#[trigger] hs[i]).len() == 32,
        0 <= off,
        off + encode_guardians(hs).len() <= data.len(),
        data.subrange(off, off + encode_guardians(hs).len()) == encode_guardians(hs),
    ensures
        spec_decode_siblings(data, off, hs.len(), acc)
            == Ok::<(Seq<Seq<u8>>, int), ErrorKind>((acc + hs, off + encode_guardians(hs).len())),
    decreases hs.len(),
{
    if hs.len() == 0 {
        assert(acc + hs =~= acc);
    } else {
        let b = spec_encode_bstr(hs[0]);
        let rest = encode_guardians(hs.drop_first());
        lemma_split(data, off, b, rest);
        lemma_bstr_roundtrip(data, off, hs[0], 2);
        assert forall|i: int| 0 <= i < hs.drop_first().len() implies (#[trigger] hs.drop_first()[i]).len() == 32 by {
            assert(hs.drop_first()[i] == hs[i + 1]);
        }
        lemma_siblings_roundtrip(data, off + b.len(), hs.drop_first(), acc.push(hs[0]));
        assert(acc.push(hs[0]) + hs.drop_first() =~= acc + hs);
    }
}

/// Reading an inclusion proof back from its CBOR form gives the proof.
#[verifier::spinoff_prover]
#[verifier::rlimit(40)]
pub proof fn law_proof_cbor_roundtrip(p: ProofModel)
    requires
        proof_encodable(p),
    ensures
        spec_proof_from_cbor(spec_proof_cbor(p), 0)
            == Ok::<(ProofModel, int), ErrorKind>((p, spec_proof_cbor(p).len() as int)),
{
    let data = spec_proof_cbor(p);
    let h = spec_encode_head(MAJOR_MAP, 2);
    let k1 = spec_encode_head(MAJOR_UINT, 1);
    let v1 = spec_encode_head(MAJOR_UINT, p.leaf_index);
    let k2 = spec_encode_head(MAJOR_UINT, 2);
    let a = spec_encode_head(MAJOR_ARRAY, p.siblings.len() as u64);
    let g = encode_guardians(p.siblings);
    assert(data =~= h + k1 + v1 + k2 + a + g);
    assert(data.subrange(0, data.len() as int) =~= data);
    lemma_split(data, 0, h + k1 + v1 + k2 + a, g);
    lemma_split(data, 0, h + k1 + v1 + k2, a);
    lemma_split(data, 0, h + k1 + v1, k2);
    lemma_split(data, 0, h + k1, v1);
    lemma_split(data, 0, h, k1);
    let o1 = h.len() as int;
    let o2 = o1 + k1.len();
    let o3 = o2 + v1.len();
    let o4 = o3 + k2.len();
    let o5 = o4 + a.len();
    lemma_head_roundtrip(data, 0, MAJOR_MAP, 2);
    lemma_head_roundtrip(data, o1, MAJOR_UINT, 1);
    lemma_head_roundtrip(data, o2, MAJOR_UINT, p.leaf_index);
    lemma_head_roundtrip(data, o3, MAJOR_UINT, 2);
    lemma_head_roundtrip(data, o4, MAJOR_ARRAY, p.siblings.len() as u64);
    lemma_siblings_roundtrip(data, o5, p.siblings, Seq::empty());
    assert(Seq::<Seq<u8>>::empty() + p.siblings =~= p.siblings);
    let st0 = ProofModel { leaf_index: 0, siblings: Seq::empty() };
    let st1 = ProofModel { leaf_index: p.leaf_index, ..st0 };
    assert(spec_proof_field(data, o2, 1, st0) == Ok::<(ProofModel, int), ErrorKind>((st1, o3)));
    assert(spec_proof_entries(data, o1, 2, st0) == spec_proof_entries(data, o3, 1, st1));
    assert(spec_proof_field(data, o4, 2, st1) == Ok::<(ProofModel, int), ErrorKind>((p, data.len() as int)));
    assert(spec_proof_entries(data, o3, 1, st1) == spec_proof_entries(data, data.len() as int, 0, p));
}

proof fn lemma_sth_uint_entry(data: Seq<u8>, off: int, n: nat, key: u64, v: u64, st: SthModel)
    requires
        key == 1 || key == 2 || key == 7,
        n > 0,
        0 <= off,
        off + field_uint(key, Some(v)).len() <= data.len(),
        data.subrange(off, off + field_uint(key, Some(v)).len()) == field_uint(key, Some(v)),
    ensures
        spec_sth_entries(data, off, n, st)
            == spec_sth_entries(data, off + field_uint(key, Some(v)).len(), (n - 1) as nat, sth_set_uint(st, key, v)),
{
    let hk = spec_encode_head(MAJOR_UINT, key);
    let hv = spec_encode_head(MAJOR_UINT, v);
    lemma_split(data, off, hk, hv);
    lemma_head_roundtrip(data, off, MAJOR_UINT, key);
    lemma_head_roundtrip(data, off + hk.len(), MAJOR_UINT, v);
}

proof fn lemma_sth_bytes_entry(data: Seq<u8>, off: int, n: nat, key: u64, b: Seq<u8>, st: SthModel)
    requires
        3 <= key <= 6,
        key == 3 ==> b.len() == 32,
        b.len() <= MAX_BSTR_LENGTH,
        n > 0,
        0 <= off,
        off + field_bstr(key, Some(b)).len() <= data.len(),
        data.subrange(off, off + field_bstr(key, Some(b)).len()) == field_bstr(key, Some(b)),
    ensures
        spec_sth_entries(data, off, n, st)
            == spec_sth_entries(data, off + field_bstr(key, Some(b)).len(), (n - 1) as nat, sth_set_bytes(st, key, b)),
{
    let hk = spec_encode_head(MAJOR_UINT, key);
    let hb = spec_encode_head(MAJOR_BSTR, b.len() as u64);
    assert(field_bstr(key, Some(b)) =~= hk + (hb + b));
    lemma_split(data, off, hk, hb + b);
    lemma_head_roundtrip(data, off, MAJOR_UINT, key);
    lemma_bstr_roundtrip(data, off + hk.len(), b, 2);
}

/// Reading a tree head back from its CBOR form gives the tree head, with
/// an empty log id replaced by the hash of the log key.
#[verifier::spinoff_prover]
#[verifier::rlimit(100)]
pub proof fn law_sth_cbor_roundtrip(s: SthModel)
    requires
        sth_encodable(s),
    ensures
        spec_sth_from_cbor(spec_sth_cbor(s), 0)
            == Ok::<(SthModel, int), ErrorKind>((sth_read_back(s), spec_sth_cbor(s).len() as int)),
{
    let data = spec_sth_cbor(s);
    let h = spec_encode_head(MAJOR_MAP, 7);
    let f1 = field_uint(1, Some(s.timestamp));
    let f2 = field_uint(2, Some(s.tree_size));
    let f3 = field_bstr(3, Some(s.root_hash));
    let f4 = field_bstr(4, Some(s.signature));
    let f5 = field_bstr(5, Some(s.log_pubkey));
    let f6 = field_bstr(6, Some(s.log_id));
    let f7 = field_uint(7, Some(s.tree_hash_algorithm));
    assert(data.subrange(0, data.len() as int) =~= data);
    lemma_split(data, 0, h + f1 + f2 + f3 + f4 + f5 + f6, f7);
    lemma_split(data, 0, h + f1 + f2 + f3 + f4 + f5, f6);
    lemma_split(data, 0, h + f1 + f2 + f3 + f4, f5);
    lemma_split(data, 0, h + f1 + f2 + f3, f4);
    lemma_split(data, 0, h + f1 + f2, f3);
    lemma_split(data, 0, h + f1, f2);
    lemma_split(data, 0, h, f1);
    let o1 = h.len() as int;
    let o2 = o1 + f1.len();
    let o3 = o2 + f2.len();
    let o4 = o3 + f3.len();
    let o5 = o4 + f4.len();
    let o6 = o5 + f5.len();
    let o7 = o6 + f6.len();
    lemma_head_roundtrip(data, 0, MAJOR_MAP, 7);
    let st0 = empty_sth();
    let st1 = sth_set_uint(st0, 1, s.timestamp);
    let st2 = sth_set_uint(st1, 2, s.tree_size);
    let st3 = sth_set_bytes(st2, 3, s.root_hash);
    let st4 = sth_set_bytes(st3, 4, s.signature);
    let st5 = sth_set_bytes(st4, 5, s.log_pubkey);
    let st6 = sth_set_bytes(st5, 6, s.log_id);
    let st7 = sth_set_uint(st6, 7, s.tree_hash_algorithm);
    lemma_sth_uint_entry(data, o1, 7, 1, s.timestamp, st0);
    lemma_sth_uint_entry(data, o2, 6, 2, s.tree_size, st1);
    lemma_sth_bytes_entry(data, o3, 5, 3, s.root_hash, st2);
    lemma_sth_bytes_entry(data, o4, 4, 4, s.signature, st3);
    lemma_sth_bytes_entry(data, o5, 3, 5, s.log_pubkey, st4);
    lemma_sth_bytes_entry(data, o6, 2, 6, s.log_id, st5);
    lemma_sth_uint_entry(data, o7, 1, 7, s.tree_hash_algorithm, st6);
    assert(st7 == s);
    assert(spec_sth_entries(data, o1, 7, st0) == Ok::<(SthModel, int), ErrorKind>((s, data.len() as int)));
}

// ---------------------------------------------------------------------
// Anchors in the unprotected header

/// The text key of the inclusion proof, `"log_inclusion_proof"`.
pub open spec fn proof_key() -> Seq<u8> {
    seq![0x6cu8, 0x6f, 0x67, 0x5f, 0x69, 0x6e, 0x63, 0x6c, 0x75, 0x73, 0x69, 0x6f, 0x6e, 0x5f, 0x70, 0x72,
        0x6f, 0x6f, 0x66]
}

/// The text key of the tree head, `"log_sth"`.
pub open spec fn sth_key() -> Seq<u8> {
    seq![0x6cu8, 0x6f, 0x67, 0x5f, 0x73, 0x74, 0x68]
}

pub(crate) fn proof_key_bytes() -> (r: [u8; 19])
    ensures
        r@ == proof_key(),
{
    let r: [u8; 19] = [0x6c, 0x6f, 0x67, 0x5f, 0x69, 0x6e, 0x63, 0x6c, 0x75, 0x73, 0x69, 0x6f, 0x6e, 0x5f, 0x70,
        0x72, 0x6f, 0x6f, 0x66];
    assert(r@ =~= proof_key());
    r
}

pub(crate) fn sth_key_bytes() -> (r: [u8; 7])
    ensures
        r@ == sth_key(),
{
    let r: [u8; 7] = [0x6c, 0x6f, 0x67, 0x5f, 0x73, 0x74, 0x68];
    assert(r@ =~= sth_key());
    r
}

/// The model a decoding result carries, if it succeeded.
pub open spec fn ok_model<M>(r: core::result::Result<(M, int), ErrorKind>) -> Option<M> {
    match r {
        Ok((m, _)) => Some(m),
        Err(_) => None,
    }
}

/// One entry of an unprotected header at `off`: the offset after it and
/// the inclusion proof and tree head found so far; `None` when the entry
/// cannot be read or skipped. An entry under the text key of the proof or
/// the tree head names a byte string holding its CBOR form; a later entry
/// under the same key replaces an earlier one, and a form that fails to
/// decode leaves nothing.
#[verifier::opaque]
pub open spec fn spec_anchor_step(u: Seq<u8>, off: int, ip: Option<ProofModel>, sth: Option<SthModel>)
    -> Option<(int, Option<ProofModel>, Option<SthModel>)>
{
    match spec_decode_string(u, off, 3) {
        Some((k, o)) => if k == proof_key() {
            match spec_decode_string(u, o, 2) {
                None => None,
                Some((b, o2)) => Some((o2, ok_model(spec_proof_from_cbor(b, 0)), sth)),
            }
        } else if k == sth_key() {
            match spec_decode_string(u, o, 2) {
                None => None,
                Some((b, o2)) => Some((o2, ip, ok_model(spec_sth_from_cbor(b, 0)))),
            }
        } else {
            match spec_skip(u, o, 0) {
                None => None,
                Some(o2) => Some((o2, ip, sth)),
            }
        },
        None => match spec_skip(u, off, 0) {
            None => None,
            Some(o1) => match spec_skip(u, o1, 0) {
                None => None,
                Some(o2) => Some((o2, ip, sth)),
            },
        },
    }
}

/// Scan of `n` more entries of an unprotected header at `off`.
pub open spec fn spec_anchor_scan(u: Seq<u8>, off: int, n: nat, ip: Option<ProofModel>, sth: Option<SthModel>)
    -> Option<(Option<ProofModel>, Option<SthModel>)>
    decreases n,
{
    if n == 0 {
        Some((ip, sth))
    } else {
        match spec_anchor_step(u, off, ip, sth) {
            None => None,
            Some((o, ip2, sth2)) => spec_anchor_scan(u, o, (n - 1) as nat, ip2, sth2),
        }
    }
}

/// The temporal anchor of an unprotected header: both an inclusion proof
/// and a tree head must be found.
pub open spec fn spec_anchor_of_header(u: Seq<u8>) -> Option<AnchorModel> {
    match spec_decode_head(u, 0, 5) {
        None => None,
        Some((n, o)) => match spec_anchor_scan(u, o, n as nat, None, None) {
            Some((Some(p), Some(s))) => Some(AnchorModel { proof: p, sth: s }),
            _ => None,
        },
    }
}

/// The temporal anchor of an envelope.
pub open spec fn spec_extract_anchor(cose: Seq<u8>) -> Option<AnchorModel> {
    match spec_parse_cose(cose) {
        Err(_) => None,
        Ok(p) => spec_anchor_of_header(p.unprotected),
    }
}

fn try_read_text_key(data: &[u8], offset: &mut usize) -> (r: Option<Vec<u8>>)
    ensures
        match spec_decode_string(data@, *old(offset) as int, 3) {
            Some((k, o)) => r matches Some(v) && v@ == k && *final(offset) == o,
            None => r is None && *final(offset) == *old(offset),
        },
{
    let saved = *offset;
    match decode_text_string(data, offset) {
        Ok(k) => Some(k),
        Err(_) => {
            *offset = saved;
            None
        },
    }
}

fn decode_proof_bytes(b: &[u8]) -> (r: Option<LogInclusionProof>)
    ensures
        match ok_model(spec_proof_from_cbor(b@, 0)) {
            Some(m) => r matches Some(p) && p@ == m,
            None => r is None,
        },
{
    let mut off: usize = 0;
    match LogInclusionProof::from_cbor(b, &mut off) {
        Ok(p) => Some(p),
        Err(_) => None,
    }
}

fn decode_sth_bytes(b: &[u8]) -> (r: Option<SignedTreeHead>)
    ensures
        match ok_model(spec_sth_from_cbor(b@, 0)) {
            Some(m) => r matches Some(s) && s@ == m,
            None => r is None,
        },
{
    let mut off: usize = 0;
    match SignedTreeHead::from_cbor(b, &mut off) {
        Ok(s) => Some(s),
        Err(_) => None,
    }
}

/// Views of optional proofs.
pub open spec fn opt_proof(o: Option<LogInclusionProof>) -> Option<ProofModel> {
    match o {
        Some(p) => Some(p@),
        None => None,
    }
}

/// Views of optional tree heads.
pub open spec fn opt_sth(o: Option<SignedTreeHead>) -> Option<SthModel> {
    match o {
        Some(s) => Some(s@),
        None => None,
    }
}

fn scan_entry(
    u: &[u8],
    offset: &mut usize,
    pk: &[u8; 19],
    sk: &[u8; 7],
    inclusion_proof: &mut Option<LogInclusionProof>,
    signed_tree_head: &mut Option<SignedTreeHead>,
) -> (ok: bool)
    requires
        pk@ == proof_key(),
        sk@ == sth_key(),
    ensures
        match spec_anchor_step(u@, *old(offset) as int, opt_proof(*old(inclusion_proof)), opt_sth(*old(signed_tree_head))) {
            Some((o, a, b)) => ok && *final(offset) == o && opt_proof(*final(inclusion_proof)) == a
                && opt_sth(*final(signed_tree_head)) == b,
            None => !ok,
        },
{
    match try_read_text_key(u, offset) {
        Some(key) => {
            proof {
                reveal(spec_anchor_step);
            }
            if bytes_eq(key.as_slice(), pk.as_slice()) {
                match decode_bstr(u, offset) {
                    Ok(b) => {
                        *inclusion_proof = decode_proof_bytes(b.as_slice());
                        true
                    },
                    Err(_) => false,
                }
            } else if bytes_eq(key.as_slice(), sk.as_slice()) {
                match decode_bstr(u, offset) {
                    Ok(b) => {
                        *signed_tree_head = decode_sth_bytes(b.as_slice());
                        true
                    },
                    Err(_) => false,
                }
            } else {
                skip_value(u, offset).is_ok()
            }
        },
        None => {
            proof {
                reveal(spec_anchor_step);
            }
            if skip_value(u, offset).is_err() {
                return false;
            }
            skip_value(u, offset).is_ok()
        },
    }
}

/// Reads the temporal anchor (inclusion proof and tree head) from an
/// envelope's unprotected header; `None` when the envelope does not parse
/// or either part is missing or malformed.
pub fn extract_temporal_anchor(cose_bytes: &[u8]) -> (r: Option<TemporalAnchor>)
    ensures
        match spec_extract_anchor(cose_bytes@) {
            Some(m) => r matches Some(a) && a@ == m,
            None => r is None,
        },
{
    let unprotected = match extract_unprotected(cose_bytes) {
        Ok(u) => u,
        Err(_) => { return None; },
    };
    let u = unprotected.as_slice();
    let mut offset: usize = 0;
    let map_len = match decode_map_len(u, &mut offset) {
        Ok(n) => n,
        Err(_) => { return None; },
    };
    let ghost o1 = offset as int;
    let pk = proof_key_bytes();
    let sk = sth_key_bytes();
    let mut inclusion_proof: Option<LogInclusionProof> = None;
    let mut signed_tree_head: Option<SignedTreeHead> = None;
    let mut i: u64 = 0;
    while i < map_len
        invariant
            i <= map_len,
            pk@ == proof_key(),
            sk@ == sth_key(),
            spec_decode_head(u@, 0, 5) == Some((map_len, o1)),
            spec_parse_cose(cose_bytes@) matches Ok(p) && p.unprotected == u@,
            spec_anchor_scan(u@, o1, map_len as nat, None, None)
                == spec_anchor_scan(u@, offset as int, (map_len - i) as nat, opt_proof(inclusion_proof),
                    opt_sth(signed_tree_head)),
        decreases map_len - i,
    {
        if !scan_entry(u, &mut offset, &pk, &sk, &mut inclusion_proof, &mut signed_tree_head) {
            return None;
        }
        i = i + 1;
    }
    match (inclusion_proof, signed_tree_head) {
        (Some(p), Some(s)) => Some(TemporalAnchor { inclusion_proof: p, signed_tree_head: s }),
        _ => None,
    }
}

// ---------------------------------------------------------------------
// Checking an anchor

/// Outcome of checking that the leaf `payload_hash` is in the tree the
/// anchor's tree head describes.
/// The message of a failed inclusion check.
pub open spec fn spec_inclusion_message(a: AnchorModel) -> Seq<char> {
    if a.sth.tree_size == 0 {
        "STH tree_size must be greater than 0"@
    } else if a.proof.leaf_index >= a.sth.tree_size {
        "leaf_index exceeds tree_size"@
    } else {
        "inclusion proof does not match STH"@
    }
}

pub open spec fn spec_verify_inclusion(a: AnchorModel, payload_hash: Seq<u8>) -> core::result::Result<(), ErrorKind> {
    if a.sth.tree_size == 0 || a.proof.leaf_index >= a.sth.tree_size
        || spec_compute_root(a.proof, payload_hash) != a.sth.root_hash {
        Err(ErrorKind::InvalidLogProof)
    } else {
        Ok(())
    }
}

/// The bytes a log signs for a tree head: timestamp and tree size as
/// 8-byte big-endian numbers, then the root hash.
pub open spec fn spec_sth_message(s: SthModel) -> Seq<u8> {
    crate::cbor::be_bytes(s.timestamp as nat, 8) + crate::cbor::be_bytes(s.tree_size as nat, 8) + s.root_hash
}

/// Outcome of checking the tree head's signature against the trusted log
/// key `trusted` (`None`: the log is not trusted).
pub open spec fn spec_verify_sth_signature(s: SthModel, trusted: Option<Seq<u8>>) -> core::result::Result<(), ErrorKind> {
    if s.log_pubkey.len() != 32 || s.log_id.len() != 32 || s.tree_hash_algorithm != 0 {
        Err(ErrorKind::InvalidLogProof)
    } else {
        match trusted {
            None => Err(ErrorKind::InvalidLogProof),
            Some(tk) => if s.log_pubkey != tk {
                Err(ErrorKind::InvalidLogProof)
            } else if !spec_ed25519_point_valid(tk) {
                Err(ErrorKind::Crypto)
            } else if s.signature.len() != 64 || !spec_ed25519_verify(tk, spec_sth_message(s), s.signature) {
                Err(ErrorKind::InvalidLogProof)
            } else {
                Ok(())
            },
        }
    }
}

/// The message of a failed tree-head signature check.
pub open spec fn spec_sth_signature_message(s: SthModel, trusted: Option<Seq<u8>>) -> Seq<char> {
    if s.log_pubkey.len() != 32 {
        "STH must carry a 32-byte log public key"@
    } else if s.log_id.len() != 32 {
        "STH must carry a 32-byte log_id"@
    } else if s.tree_hash_algorithm != 0 {
        "unsupported tree hash algorithm"@
    } else {
        match trusted {
            None => "STH from untrusted log"@,
            Some(tk) => if s.log_pubkey != tk {
                "STH public key does not match trusted key"@
            } else if !spec_ed25519_point_valid(tk) {
                "invalid CT log public key"@
            } else if s.signature.len() != 64 {
                "STH signature must be 64 bytes"@
            } else {
                "STH signature verification failed"@
            },
        }
    }
}

/// Views of optional 32-byte keys.
pub open spec fn opt_key(o: Option<&[u8; 32]>) -> Option<Seq<u8>> {
    match o {
        Some(k) => Some(k@),
        None => None,
    }
}

impl TemporalAnchor {
    /// Checks that the leaf `payload_hash` is in the tree described by the
    /// tree head: non-empty tree, leaf index in range, proof leading to
    /// the root.
    pub fn verify_inclusion(&self, payload_hash: &[u8; 32]) -> (r: Result<()>)
        ensures
            match spec_verify_inclusion(self@, payload_hash@) {
                Ok(()) => r is Ok,
                Err(k) => r matches Err(e) && e.kind() == k,
            },
            r matches Err(e) ==> (e matches Error::InvalidLogProof(m) && m@ == spec_inclusion_message(self@)),
    {
        if self.signed_tree_head.tree_size == 0 {
            return Err(log_proof_error("STH tree_size must be greater than 0"));
        }
        if self.inclusion_proof.leaf_index >= self.signed_tree_head.tree_size {
            return Err(log_proof_error("leaf_index exceeds tree_size"));
        }
        if !self.inclusion_proof.verify(payload_hash, &self.signed_tree_head.root_hash) {
            return Err(log_proof_error("inclusion proof does not match STH"));
        }
        Ok(())
    }

    /// Checks the tree head's signature with the log key the caller trusts
    /// (`None` when the log is not trusted): 32-byte key and log id,
    /// SHA-256 trees only, the carried key equal to the trusted one, and a
    /// valid 64-byte Ed25519 signature.
    pub fn verify_sth_signature(&self, trusted_key: Option<&[u8; 32]>) -> (r: Result<()>)
        ensures
            match spec_verify_sth_signature(self.signed_tree_head@, opt_key(trusted_key)) {
                Ok(()) => r is Ok,
                Err(k) => r matches Err(e) && e.kind() == k
                    && crate::error::error_message(e) == spec_sth_signature_message(self.signed_tree_head@, opt_key(trusted_key)),
            },
    {
        let sth = &self.signed_tree_head;
        if sth.log_pubkey.len() != 32 {
            return Err(log_proof_error("STH must carry a 32-byte log public key"));
        }
        if sth.log_id.len() != 32 {
            return Err(log_proof_error("STH must carry a 32-byte log_id"));
        }
        if sth.tree_hash_algorithm != 0 {
            return Err(log_proof_error("unsupported tree hash algorithm"));
        }
        let tk = match trusted_key {
            Some(tk) => tk,
            None => { return Err(log_proof_error("STH from untrusted log")); },
        };
        if !bytes_eq(sth.log_pubkey.as_slice(), tk.as_slice()) {
            return Err(log_proof_error("STH public key does not match trusted key"));
        }
        let mut msg: Vec<u8> = Vec::new();
        crate::cbor::push_be(&mut msg, sth.timestamp, 8);
        crate::cbor::push_be(&mut msg, sth.tree_size, 8);
        append_bytes(&mut msg, sth.root_hash.as_slice());
        assert(msg@ =~= spec_sth_message(sth@));
        if !ed25519_point_valid(tk) {
            return Err(crypto_error("invalid CT log public key"));
        }
        if sth.signature.len() != 64 {
            return Err(log_proof_error("STH signature must be 64 bytes"));
        }
        let sig: [u8; 64] = crate::cose::to_array(sth.signature.as_slice());
        if !ed25519_verify(tk, msg.as_slice(), &sig) {
            return Err(log_proof_error("STH signature verification failed"));
        }
        Ok(())
    }
}

} // verus!
