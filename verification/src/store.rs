//! A trust store fixed in advance: one pinned key (Ed25519, and optionally
//! a composite key), the statements of a lineage chain indexed by their
//! BLAKE3 hash, a trusted log key, and the log's revocation answers as of a
//! checkpoint. Callers that cannot keep a live store hand one of these to
//! the verifier.
use vstd::prelude::*;
use crate::cose::CompositePublicKey;
use crate::crypto::{ed25519_point_valid, spec_blake3, spec_ed25519_point_valid};
use crate::hash::blake3;
use crate::verify::{contains_hash, opt_composite, opt_seq1952, opt_seq32, TrustStore};

verus! {

/// A trust store whose answers are fixed by its contents.
pub struct SnapshotTrustStore {
    ed25519_key: Option<[u8; 32]>,
    composite_key: Option<CompositePublicKey>,
    mldsa65_key: Option<[u8; 1952]>,
    chain: Vec<([u8; 32], Vec<u8>)>,
    trusted_log_key: Option<[u8; 32]>,
    revoked: Vec<[u8; 32]>,
    not_revoked: Vec<[u8; 32]>,
    checkpoint_timestamp: Option<u64>,
}

/// The key pinned from `bytes`: 32 bytes that decode as an Ed25519 point.
pub open spec fn pinned_from(bytes: Seq<u8>) -> Option<Seq<u8>> {
    if bytes.len() == 32 && spec_ed25519_point_valid(bytes) { Some(bytes) } else { None }
}

/// The last statement of `stmts` whose BLAKE3 hash is `h`: a later
/// statement under the same hash replaces an earlier one.
pub open spec fn last_with_hash(stmts: Seq<Seq<u8>>, h: Seq<u8>) -> Option<Seq<u8>>
    decreases stmts.len(),
{
    if stmts.len() == 0 {
        None
    } else if spec_blake3(stmts.last()) == h {
        Some(stmts.last())
    } else {
        last_with_hash(stmts.drop_last(), h)
    }
}

/// The log's revocation answer for `h` as of `checkpoint`: none for a
/// question about a time after the checkpoint or a hash it does not list.
pub open spec fn snapshot_revocation(
    checkpoint: Option<u64>,
    revoked: Seq<Seq<u8>>,
    not_revoked: Seq<Seq<u8>>,
    h: Seq<u8>,
    after: u64,
) -> Option<bool> {
    match checkpoint {
        None => None,
        Some(cp) => if after > cp {
            None
        } else if revoked.contains(h) {
            Some(true)
        } else if not_revoked.contains(h) {
            Some(false)
        } else {
            None
        },
    }
}

/// A statement just added is what a lookup by its hash returns, and a
/// lookup by another hash returns what it returned before.
pub proof fn law_fetch_after_add(stmts: Seq<Seq<u8>>, s: Seq<u8>, h: Seq<u8>)
    ensures
        last_with_hash(stmts.push(s), spec_blake3(s)) == Some(s),
        h != spec_blake3(s) ==> last_with_hash(stmts.push(s), h) == last_with_hash(stmts, h),
{
    assert(stmts.push(s).drop_last() =~= stmts);
}

impl SnapshotTrustStore {
    /// The pinned Ed25519 key.
    pub closed spec fn pinned_key(&self) -> Option<Seq<u8>> {
        opt_seq32(self.ed25519_key)
    }

    /// The pinned composite key.
    pub closed spec fn pinned_composite(&self) -> Option<(Seq<u8>, Seq<u8>)> {
        opt_composite(self.composite_key)
    }

    /// The pinned ML-DSA-65 key.
    pub closed spec fn pinned_mldsa65(&self) -> Option<Seq<u8>> {
        opt_seq1952(self.mldsa65_key)
    }

    /// The statements added, in order.
    pub closed spec fn statements(&self) -> Seq<Seq<u8>> {
        self.chain@.map_values(|e: ([u8; 32], Vec<u8>)| e.1@)
    }

    /// The trusted log key.
    pub closed spec fn log_key(&self) -> Option<Seq<u8>> {
        opt_seq32(self.trusted_log_key)
    }

    /// Hashes the log reports revoked.
    pub closed spec fn revoked_hashes(&self) -> Seq<Seq<u8>> {
        self.revoked@.map_values(|h: [u8; 32]| h@)
    }

    /// Hashes the log reports not revoked.
    pub closed spec fn not_revoked_hashes(&self) -> Seq<Seq<u8>> {
        self.not_revoked@.map_values(|h: [u8; 32]| h@)
    }

    /// The time up to which the revocation answers hold.
    pub closed spec fn checkpoint(&self) -> Option<u64> {
        self.checkpoint_timestamp
    }

    /// Every cached statement sits under its own hash.
    #[verifier::type_invariant]
    spec fn well_formed(self) -> bool {
        forall|i: int| 0 <= i < self.chain@.len() ==> #[trigger] self.chain@[i].0@ == spec_blake3(self.chain@[i].1@)
    }

    /// A store that pins `pubkey` where it is a 32-byte Ed25519 point, and
    /// trusts `trusted_log_key` where it is 32 bytes, with no statements
    /// and no revocation answers yet.
    pub fn new(pubkey: &[u8], trusted_log_key: &[u8], checkpoint_timestamp: Option<u64>) -> (r: Self)
        ensures
            r.pinned_key() == pinned_from(pubkey@),
            r.pinned_composite() is None,
            r.pinned_mldsa65() is None,
            r.statements() == Seq::<Seq<u8>>::empty(),
            r.log_key() == (if trusted_log_key@.len() == 32 { Some(trusted_log_key@) } else { None::<Seq<u8>> }),
            r.revoked_hashes() == Seq::<Seq<u8>>::empty(),
            r.not_revoked_hashes() == Seq::<Seq<u8>>::empty(),
            r.checkpoint() == checkpoint_timestamp,
    {
        let ed25519_key = if pubkey.len() == 32 {
            let k: [u8; 32] = crate::cose::to_array(pubkey);
            if ed25519_point_valid(&k) { Some(k) } else { None }
        } else {
            None
        };
        let trusted = if trusted_log_key.len() == 32 {
            let k: [u8; 32] = crate::cose::to_array(trusted_log_key);
            Some(k)
        } else {
            None
        };
        let r = SnapshotTrustStore {
            ed25519_key,
            composite_key: None,
            mldsa65_key: None,
            chain: Vec::new(),
            trusted_log_key: trusted,
            revoked: Vec::new(),
            not_revoked: Vec::new(),
            checkpoint_timestamp,
        };
        assert(r.statements() =~= Seq::<Seq<u8>>::empty());
        assert(r.revoked_hashes() =~= Seq::<Seq<u8>>::empty());
        assert(r.not_revoked_hashes() =~= Seq::<Seq<u8>>::empty());
        r
    }

    /// Pins a composite key as well.
    pub fn set_composite_key(&mut self, key: CompositePublicKey)
        ensures
            final(self).pinned_composite() == Some((key.ed25519@, key.mldsa65@)),
            final(self).pinned_key() == old(self).pinned_key(),
            final(self).pinned_mldsa65() == old(self).pinned_mldsa65(),
            final(self).statements() == old(self).statements(),
            final(self).log_key() == old(self).log_key(),
            final(self).revoked_hashes() == old(self).revoked_hashes(),
            final(self).not_revoked_hashes() == old(self).not_revoked_hashes(),
            final(self).checkpoint() == old(self).checkpoint(),
    {
        proof {
            use_type_invariant(&*self);
        }
        self.composite_key = Some(key);
    }

    /// Pins an ML-DSA-65 key for statements signed with ML-DSA-65 alone.
    pub fn set_mldsa65_key(&mut self, key: [u8; 1952])
        ensures
            final(self).pinned_mldsa65() == Some(key@),
            final(self).pinned_key() == old(self).pinned_key(),
            final(self).pinned_composite() == old(self).pinned_composite(),
            final(self).statements() == old(self).statements(),
            final(self).log_key() == old(self).log_key(),
            final(self).revoked_hashes() == old(self).revoked_hashes(),
            final(self).not_revoked_hashes() == old(self).not_revoked_hashes(),
            final(self).checkpoint() == old(self).checkpoint(),
    {
        proof {
            use_type_invariant(&*self);
        }
        self.mldsa65_key = Some(key);
    }

    /// Adds a statement, found again under its BLAKE3 hash.
    pub fn add_statement(&mut self, stmt: &[u8])
        ensures
            final(self).statements() == old(self).statements().push(stmt@),
            final(self).pinned_key() == old(self).pinned_key(),
            final(self).pinned_mldsa65() == old(self).pinned_mldsa65(),
            final(self).pinned_composite() == old(self).pinned_composite(),
            final(self).log_key() == old(self).log_key(),
            final(self).revoked_hashes() == old(self).revoked_hashes(),
            final(self).not_revoked_hashes() == old(self).not_revoked_hashes(),
            final(self).checkpoint() == old(self).checkpoint(),
    {
        proof {
            use_type_invariant(&*self);
        }
        let h = blake3(stmt);
        let mut bytes: Vec<u8> = Vec::new();
        crate::cbor::append_bytes(&mut bytes, stmt);
        assert(bytes@ =~= stmt@);
        let mut chain: Vec<([u8; 32], Vec<u8>)> = Vec::new();
        std::mem::swap(&mut chain, &mut self.chain);
        let ghost before = chain@;
        chain.push((h, bytes));
        assert(forall|i: int| 0 <= i < chain@.len() ==> #[trigger] chain@[i].0@ == spec_blake3(chain@[i].1@)) by {
            assert forall|i: int| 0 <= i < chain@.len() implies #[trigger] chain@[i].0@ == spec_blake3(chain@[i].1@) by {
                if i < before.len() {
                    assert(chain@[i] == before[i]);
                }
            }
        }
        self.chain = chain;
        assert(self.statements() =~= old(self).statements().push(stmt@));
    }

    /// Records that the log reports the statement `stmt_hash` revoked.
    pub fn mark_revoked(&mut self, stmt_hash: [u8; 32])
        ensures
            final(self).revoked_hashes() == old(self).revoked_hashes().push(stmt_hash@),
            final(self).pinned_key() == old(self).pinned_key(),
            final(self).pinned_mldsa65() == old(self).pinned_mldsa65(),
            final(self).pinned_composite() == old(self).pinned_composite(),
            final(self).statements() == old(self).statements(),
            final(self).log_key() == old(self).log_key(),
            final(self).not_revoked_hashes() == old(self).not_revoked_hashes(),
            final(self).checkpoint() == old(self).checkpoint(),
    {
        proof {
            use_type_invariant(&*self);
        }
        let mut hs: Vec<[u8; 32]> = Vec::new();
        std::mem::swap(&mut hs, &mut self.revoked);
        hs.push(stmt_hash);
        self.revoked = hs;
        assert(self.revoked_hashes() =~= old(self).revoked_hashes().push(stmt_hash@));
    }

    /// Records that the log reports the statement `stmt_hash` not revoked.
    pub fn mark_not_revoked(&mut self, stmt_hash: [u8; 32])
        ensures
            final(self).not_revoked_hashes() == old(self).not_revoked_hashes().push(stmt_hash@),
            final(self).pinned_key() == old(self).pinned_key(),
            final(self).pinned_mldsa65() == old(self).pinned_mldsa65(),
            final(self).pinned_composite() == old(self).pinned_composite(),
            final(self).statements() == old(self).statements(),
            final(self).log_key() == old(self).log_key(),
            final(self).revoked_hashes() == old(self).revoked_hashes(),
            final(self).checkpoint() == old(self).checkpoint(),
    {
        proof {
            use_type_invariant(&*self);
        }
        let mut hs: Vec<[u8; 32]> = Vec::new();
        std::mem::swap(&mut hs, &mut self.not_revoked);
        hs.push(stmt_hash);
        self.not_revoked = hs;
        assert(self.not_revoked_hashes() =~= old(self).not_revoked_hashes().push(stmt_hash@));
    }
}

impl TrustStore for SnapshotTrustStore {
    open spec fn obeys_store_spec() -> bool {
        true
    }

    open spec fn key_for(&self, kid: Seq<u8>) -> Option<Seq<u8>> {
        self.pinned_key()
    }

    open spec fn composite_key_for(&self, kid: Seq<u8>) -> Option<(Seq<u8>, Seq<u8>)> {
        self.pinned_composite()
    }

    open spec fn mldsa65_key_for(&self, kid: Seq<u8>) -> Option<Seq<u8>> {
        self.pinned_mldsa65()
    }

    open spec fn statement_for(&self, hash: Seq<u8>) -> Option<Seq<u8>> {
        last_with_hash(self.statements(), hash)
    }

    open spec fn revocation_for(&self, stmt_hash: Seq<u8>, after: u64) -> Option<bool> {
        snapshot_revocation(self.checkpoint(), self.revoked_hashes(), self.not_revoked_hashes(), stmt_hash, after)
    }

    open spec fn log_key_for(&self, log_id: Seq<u8>, candidate: Seq<u8>) -> Option<Seq<u8>> {
        match self.log_key() {
            Some(tk) => if tk == candidate { Some(tk) } else { None },
            None => None,
        }
    }

    open spec fn rotated_key_for(&self, kid: Seq<u8>) -> Option<Seq<u8>> {
        self.pinned_key()
    }

    /// The pinned Ed25519 key, whatever the `kid` (no rotations).
    fn resolve_rotated_key(&self, kid: &[u8]) -> (r: Option<[u8; 32]>)
        ensures
            opt_seq32(r) == self.pinned_key(),
    {
        self.ed25519_key
    }

    /// The pinned Ed25519 key, whatever the `kid`.
    fn resolve_key(&self, kid: &[u8]) -> (r: Option<[u8; 32]>)
        ensures
            opt_seq32(r) == self.pinned_key(),
    {
        self.ed25519_key
    }

    /// The pinned composite key, whatever the `kid`.
    fn resolve_composite_key(&self, kid: &[u8]) -> (r: Option<CompositePublicKey>)
        ensures
            opt_composite(r) == self.pinned_composite(),
    {
        match &self.composite_key {
            Some(k) => Some(CompositePublicKey { ed25519: k.ed25519, mldsa65: k.mldsa65 }),
            None => None,
        }
    }

    /// The pinned ML-DSA-65 key, whatever the `kid`.
    fn resolve_mldsa65_key(&self, kid: &[u8]) -> (r: Option<[u8; 1952]>)
        ensures
            opt_seq1952(r) == self.pinned_mldsa65(),
    {
        self.mldsa65_key
    }

    /// The last statement added whose hash is `hash`.
    fn fetch_statement(&self, hash: &[u8; 32]) -> (r: Option<Vec<u8>>)
        ensures
            match last_with_hash(self.statements(), hash@) {
                Some(s) => r matches Some(v) && v@ == s,
                None => r is None,
            },
    {
        proof {
            use_type_invariant(self);
        }
        let ghost stmts = self.statements();
        let mut i: usize = self.chain.len();
        assert(stmts.subrange(0, i as int) =~= stmts);
        while i > 0
            invariant
                i <= self.chain@.len(),
                stmts == self.statements(),
                forall|j: int| 0 <= j < self.chain@.len() ==> #[trigger] self.chain@[j].0@ == spec_blake3(self.chain@[j].1@),
                last_with_hash(stmts, hash@) == last_with_hash(stmts.subrange(0, i as int), hash@),
            decreases i,
        {
            let entry = &self.chain[i - 1];
            proof {
                let pre = stmts.subrange(0, i as int);
                assert(pre.last() == entry.1@);
                assert(pre.drop_last() =~= stmts.subrange(0, i - 1));
            }
            if crate::cbor_payload::bytes_eq(entry.0.as_slice(), hash.as_slice()) {
                let mut out: Vec<u8> = Vec::new();
                crate::cbor::append_bytes(&mut out, entry.1.as_slice());
                assert(out@ =~= entry.1@);
                return Some(out);
            }
            i = i - 1;
        }
        None
    }

    /// The log's revocation answer as of the checkpoint (`snapshot_revocation`).
    fn is_revoked_in_log(&self, stmt_hash: &[u8; 32], after_timestamp: u64) -> (r: Option<bool>)
        ensures
            r == snapshot_revocation(self.checkpoint(), self.revoked_hashes(), self.not_revoked_hashes(),
                stmt_hash@, after_timestamp),
    {
        let cp = match self.checkpoint_timestamp {
            Some(c) => c,
            None => { return None; },
        };
        if after_timestamp > cp {
            return None;
        }
        if contains_hash(&self.revoked, stmt_hash) {
            return Some(true);
        }
        if contains_hash(&self.not_revoked, stmt_hash) {
            return Some(false);
        }
        None
    }

    /// The trusted log key, where it is the key the tree head carries.
    fn resolve_log_pubkey(&self, log_id: &[u8; 32], candidate_key: &[u8; 32]) -> (r: Option<[u8; 32]>)
        ensures
            opt_seq32(r) == (match self.log_key() {
                Some(tk) => if tk == candidate_key@ { Some(tk) } else { None },
                None => None,
            }),
    {
        match self.trusted_log_key {
            Some(tk) => if crate::cbor_payload::bytes_eq(tk.as_slice(), candidate_key.as_slice()) { Some(tk) } else { None },
            None => None,
        }
    }
}

} // verus!
