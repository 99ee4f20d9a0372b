//! Protocol best-practice checks on statement payloads: what a linter
//! reports about a payload, and whether an envelope uses plain Ed25519.
use vstd::prelude::*;
use crate::cbor_payload::{AxiomPayload, PayloadModel};
use crate::cbor_value::lemma_entries_model_index;
use crate::predicate::Predicate;

verus! {

/// A finding of the linter about a payload.
#[derive(Debug, Clone, Copy, PartialEq, Eq)]
pub enum LintWarning {
    /// No timestamp: the statement cannot be ordered in time.
    MissingTimestamp,
    /// The subject hash is all zeros.
    ZeroSubject,
    /// A `Revokes` statement names no revoked statement.
    RevokesWithoutObject,
    /// A `Supersedes` statement names no new key.
    SupersedesWithoutObject,
    /// A `DerivedFrom` statement names no source artifact.
    DerivedFromWithoutObject,
    /// A nonce without a timestamp.
    NonceWithoutTimestamp,
    /// The lineage hash is all zeros.
    ZeroLineage,
    /// Custom extensions, with their number.
    Extensions(usize),
    /// An encoded payload larger than `LINT_PAYLOAD_LIMIT`, with its size.
    LargePayload(usize),
}

/// Size in bytes above which an encoded payload is reported as large.
pub const LINT_PAYLOAD_LIMIT: usize = 1024;

/// Whether every byte is zero.
pub open spec fn all_zero(s: Seq<u8>) -> bool {
    forall|i: int| 0 <= i < s.len() ==> s[i] == 0u8
}

/// The one-element sequence of `w` when `c` holds, else nothing.
pub open spec fn finding_if(c: bool, w: LintWarning) -> Seq<LintWarning> {
    if c { seq![w] } else { Seq::empty() }
}

/// The findings about a payload whose encoding is `payload_len` bytes
/// long, in this order: missing timestamp, zero subject, a linking
/// predicate without object, nonce without timestamp, zero lineage,
/// extensions, large payload.
pub open spec fn spec_lint(p: PayloadModel, payload_len: nat) -> Seq<LintWarning> {
    finding_if(p.timestamp is None, LintWarning::MissingTimestamp)
        + finding_if(all_zero(p.subject), LintWarning::ZeroSubject)
        + finding_if(p.predicate == Predicate::Revokes && p.object is None, LintWarning::RevokesWithoutObject)
        + finding_if(p.predicate == Predicate::Supersedes && p.object is None, LintWarning::SupersedesWithoutObject)
        + finding_if(p.predicate == Predicate::DerivedFrom && p.object is None, LintWarning::DerivedFromWithoutObject)
        + finding_if(p.nonce is Some && p.timestamp is None, LintWarning::NonceWithoutTimestamp)
        + finding_if(p.lineage matches Some(l) && all_zero(l), LintWarning::ZeroLineage)
        + (match p.extensions {
            Some(es) => finding_if(es.len() > 0, LintWarning::Extensions(es.len() as usize)),
            None => Seq::empty(),
        })
        + finding_if(payload_len > LINT_PAYLOAD_LIMIT, LintWarning::LargePayload(payload_len as usize))
}

fn is_all_zero(b: &[u8; 32]) -> (r: bool)
    ensures
        r == all_zero(b@),
{
    let mut i: usize = 0;
    while i < 32
        invariant
            i <= 32,
            b@.len() == 32,
            forall|j: int| 0 <= j < i ==> b@[j] == 0u8,
        decreases 32 - i,
    {
        if b[i] != 0 {
            return false;
        }
        i = i + 1;
    }
    true
}

fn push_if(out: &mut Vec<LintWarning>, c: bool, w: LintWarning)
    ensures
        final(out)@ == old(out)@ + finding_if(c, w),
{
    if c {
        out.push(w);
        assert(final(out)@ =~= old(out)@ + seq![w]);
    } else {
        assert(old(out)@ + Seq::<LintWarning>::empty() =~= old(out)@);
    }
}

/// The linter's findings about `payload`, whose encoding is `payload_len`
/// bytes long (see `spec_lint`).
pub fn lint_payload(payload: &AxiomPayload, payload_len: usize) -> (r: Vec<LintWarning>)
    ensures
        r@ == spec_lint(payload@, payload_len as nat),
{
    let mut out: Vec<LintWarning> = Vec::new();
    push_if(&mut out, payload.timestamp.is_none(), LintWarning::MissingTimestamp);
    let zero_subject = is_all_zero(&payload.subject);
    push_if(&mut out, zero_subject, LintWarning::ZeroSubject);
    let no_object = payload.object.is_none();
    push_if(&mut out, payload.predicate == Predicate::Revokes && no_object, LintWarning::RevokesWithoutObject);
    push_if(&mut out, payload.predicate == Predicate::Supersedes && no_object, LintWarning::SupersedesWithoutObject);
    push_if(&mut out, payload.predicate == Predicate::DerivedFrom && no_object, LintWarning::DerivedFromWithoutObject);
    push_if(&mut out, payload.nonce.is_some() && payload.timestamp.is_none(), LintWarning::NonceWithoutTimestamp);
    let zero_lineage = match &payload.lineage {
        Some(l) => is_all_zero(l),
        None => false,
    };
    push_if(&mut out, zero_lineage, LintWarning::ZeroLineage);
    match &payload.extensions {
        Some(es) => {
            proof {
                lemma_entries_model_index(es@);
            }
            push_if(&mut out, es.len() > 0, LintWarning::Extensions(es.len()));
        },
        None => {
            assert(out@ + Seq::<LintWarning>::empty() =~= out@);
        },
    }
    push_if(&mut out, payload_len > LINT_PAYLOAD_LIMIT, LintWarning::LargePayload(payload_len));
    out
}

/// The bytes of a protected header that mark plain Ed25519: `alg` (key 1)
/// set to -8, followed by the `kid` key (4) and a one-byte-length byte
/// string head.
pub open spec fn ed25519_marker() -> Seq<u8> {
    seq![0x01u8, 0x27, 0x04, 0x58]
}

/// Whether `window` occurs in `data`.
pub open spec fn contains_window(data: Seq<u8>, window: Seq<u8>) -> bool {
    exists|i: int| 0 <= i && i + window.len() <= data.len() && #[trigger] data.subrange(i, i + window.len()) == window
}

/// Whether the protected header `protected` marks plain Ed25519 (the
/// linter then recommends a composite signature).
pub fn protected_uses_ed25519(protected: &[u8]) -> (r: bool)
    ensures
        r == contains_window(protected@, ed25519_marker()),
{
    let ghost m = ed25519_marker();
    if protected.len() < 4 {
        assert(!contains_window(protected@, m));
        return false;
    }
    let mut i: usize = 0;
    let last: usize = protected.len() - 3;
    while i < last
        invariant
            protected@.len() >= 4,
            last == protected@.len() - 3,
            i <= last,
            m == ed25519_marker(),
            forall|j: int| 0 <= j < i ==> #[trigger] protected@.subrange(j, j + 4) != m,
        decreases protected@.len() - i,
    {
        if protected[i] == 0x01 && protected[i + 1] == 0x27 && protected[i + 2] == 0x04 && protected[i + 3] == 0x58 {
            assert(protected@.subrange(i as int, i as int + 4) =~= m);
            return true;
        }
        assert(protected@.subrange(i as int, i as int + 4) != m) by {
            if protected@.subrange(i as int, i as int + 4) == m {
                assert(protected@.subrange(i as int, i as int + 4)[0] == protected@[i as int]);
                assert(protected@.subrange(i as int, i as int + 4)[1] == protected@[i as int + 1]);
                assert(protected@.subrange(i as int, i as int + 4)[2] == protected@[i as int + 2]);
                assert(protected@.subrange(i as int, i as int + 4)[3] == protected@[i as int + 3]);
            }
        }
        i = i + 1;
    }
    assert(!contains_window(protected@, m)) by {
        if contains_window(protected@, m) {
            let j = choose|j: int| 0 <= j && j + m.len() <= protected@.len() && #[trigger] protected@.subrange(j, j + m.len()) == m;
            assert(protected@.subrange(j, j + 4) == m);
        }
    }
    false
}

} // verus!
