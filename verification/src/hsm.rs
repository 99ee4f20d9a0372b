//! Key storage behind a hardware-security-module style interface: key
//! references, algorithms, and the stores the library ships (none of them
//! holds keys).
use vstd::prelude::*;
use crate::crypto::{
    ed25519_public, ed25519_sign, ed25519ph_sign, mldsa65_public, mldsa65_sign, random_bytes, spec_blake3,
    spec_ed25519_public, spec_ed25519_sign, spec_ed25519_verify, spec_ed25519ph_sign, spec_ed25519ph_verify,
    spec_mldsa65_public, spec_mldsa65_sign, spec_mldsa65_verify, zeroize32,
};
use crate::error::{Error, ErrorKind, Result, crypto_error};
use crate::cbor::append_bytes;
use crate::cose::to_array;
use crate::hash::blake3;

verus! {

/// Signature algorithm of a stored key.
#[derive(Debug, Clone, Copy, PartialEq, Eq, Structural)]
pub enum Algorithm {
    /// Pure Ed25519.
    Ed25519,
    /// ML-DSA-65 alone.
    MlDsa65,
    /// Ed25519ph together with ML-DSA-65.
    Composite,
}

/// COSE algorithm identifier of an algorithm.
pub open spec fn spec_cose_alg_id(a: Algorithm) -> i64 {
    match a {
        Algorithm::Ed25519 => -8i64,
        Algorithm::MlDsa65 => -38i64,
        Algorithm::Composite => -39i64,
    }
}

impl Algorithm {
    /// The COSE algorithm identifier: -8, -38 or -39.
    pub fn cose_alg_id(&self) -> (r: i64)
        ensures
            r == spec_cose_alg_id(*self),
    {
        match self {
            Algorithm::Ed25519 => -8,
            Algorithm::MlDsa65 => -38,
            Algorithm::Composite => -39,
        }
    }

    /// The algorithm with COSE identifier `id`, if any.
    pub fn from_cose_alg_id(id: i64) -> (r: Option<Self>)
        ensures
            r matches Some(a) ==> spec_cose_alg_id(a) == id,
            r is None <==> (id != -8 && id != -38 && id != -39),
    {
        if id == -8 {
            Some(Algorithm::Ed25519)
        } else if id == -38 {
            Some(Algorithm::MlDsa65)
        } else if id == -39 {
            Some(Algorithm::Composite)
        } else {
            None
        }
    }
}

/// Every algorithm is found again from its COSE identifier, and distinct
/// algorithms have distinct identifiers.
pub proof fn law_cose_alg_id_roundtrip(a: Algorithm, b: Algorithm)
    ensures
        spec_cose_alg_id(a) == -8 || spec_cose_alg_id(a) == -38 || spec_cose_alg_id(a) == -39,
        spec_cose_alg_id(a) == spec_cose_alg_id(b) ==> a == b,
{
}

/// Attributes a key is generated with.
#[derive(Debug, Clone)]
pub struct KeyAttributes {
    /// Algorithm of the key.
    pub algorithm: Algorithm,
    /// Whether the key may be exported wrapped.
    pub exportable: bool,
    /// Whether the key may be extracted in the clear.
    pub extractable: bool,
}

impl Default for KeyAttributes {
    /// An Ed25519 key that can be neither exported nor extracted.
    fn default() -> (r: Self)
        ensures
            r.algorithm == Algorithm::Ed25519,
            !r.exportable,
            !r.extractable,
    {
        KeyAttributes { algorithm: Algorithm::Ed25519, exportable: false, extractable: false }
    }
}

/// Reference to a stored key: its identifier and algorithm.
#[derive(Debug, Clone, PartialEq, Eq)]
pub struct KeyReference {
    /// Key identifier (BLAKE3 of the public key).
    pub kid: [u8; 32],
    /// Algorithm of the key.
    pub algorithm: Algorithm,
}

impl KeyReference {
    /// Reference to an Ed25519 key.
    pub fn new_ed25519(kid: [u8; 32]) -> (r: Self)
        ensures
            r.kid == kid,
            r.algorithm == Algorithm::Ed25519,
    {
        KeyReference { kid, algorithm: Algorithm::Ed25519 }
    }

    /// Reference to an ML-DSA-65 key.
    pub fn new_mldsa65(kid: [u8; 32]) -> (r: Self)
        ensures
            r.kid == kid,
            r.algorithm == Algorithm::MlDsa65,
    {
        KeyReference { kid, algorithm: Algorithm::MlDsa65 }
    }

    /// Reference to a composite key.
    pub fn new_composite(kid: [u8; 32]) -> (r: Self)
        ensures
            r.kid == kid,
            r.algorithm == Algorithm::Composite,
    {
        KeyReference { kid, algorithm: Algorithm::Composite }
    }

    /// Overwrites the key identifier with zeros.
    pub fn zeroize(&mut self)
        ensures
            forall|i: int| 0 <= i < 32 ==> final(self).kid@[i] == 0u8,
            final(self).algorithm == old(self).algorithm,
    {
        zeroize32(&mut self.kid);
    }
}

/// A store of signing keys that never hands out private key material.
pub trait SecureKeyStore {
    /// Generates a key and returns a reference to it.
    fn generate(&mut self, algorithm: Algorithm, attrs: KeyAttributes) -> Result<KeyReference>;

    /// Signs `msg` with the referenced key.
    fn sign(&self, key_ref: &KeyReference, msg: &[u8]) -> Result<Vec<u8>>;

    /// The public key of the referenced key.
    fn public_key(&self, key_ref: &KeyReference) -> Result<Vec<u8>>;

    /// Whether the referenced key exists.
    fn is_valid(&self, key_ref: &KeyReference) -> bool;

    /// Deletes the referenced key.
    fn delete(&mut self, key_ref: &KeyReference) -> Result<()>;

    /// References to every stored key.
    fn list_keys(&self) -> Vec<KeyReference>;
}

/// A key store for systems without one: every operation fails with a
/// `Crypto` error and no key exists.
pub struct NullKeyStore;

impl SecureKeyStore for NullKeyStore {
    fn generate(&mut self, algorithm: Algorithm, attrs: KeyAttributes) -> (r: Result<KeyReference>)
        ensures
            r matches Err(e) && e.kind() == ErrorKind::Crypto,
    {
        Err(crypto_error("no secure keystore available"))
    }

    fn sign(&self, key_ref: &KeyReference, msg: &[u8]) -> (r: Result<Vec<u8>>)
        ensures
            r matches Err(e) && e.kind() == ErrorKind::Crypto,
    {
        Err(crypto_error("no secure keystore available"))
    }

    fn public_key(&self, key_ref: &KeyReference) -> (r: Result<Vec<u8>>)
        ensures
            r matches Err(e) && e.kind() == ErrorKind::Crypto,
    {
        Err(crypto_error("no secure keystore available"))
    }

    fn is_valid(&self, key_ref: &KeyReference) -> (r: bool)
        ensures
            !r,
    {
        false
    }

    fn delete(&mut self, key_ref: &KeyReference) -> (r: Result<()>)
        ensures
            r matches Err(e) && e.kind() == ErrorKind::Crypto,
    {
        Err(crypto_error("no secure keystore available"))
    }

    fn list_keys(&self) -> (r: Vec<KeyReference>)
        ensures
            r@.len() == 0,
    {
        Vec::new()
    }
}

/// A PKCS#11 token. Not yet supported: opening one fails with an `Io`
/// error, and so does every operation.
pub struct Pkcs11KeyStore;

impl Pkcs11KeyStore {
    /// Opens the token at `slot_id` of the PKCS#11 library at `library`.
    pub fn new(library: &str, slot_id: usize, pin: &str) -> (r: Result<Self>)
        ensures
            r matches Err(e) && e.kind() == ErrorKind::Io,
    {
        Err(Error::Io("PKCS#11 not yet implemented".to_owned()))
    }
}

impl SecureKeyStore for Pkcs11KeyStore {
    fn generate(&mut self, algorithm: Algorithm, attrs: KeyAttributes) -> (r: Result<KeyReference>)
        ensures
            r matches Err(e) && e.kind() == ErrorKind::Io,
    {
        Err(Error::Io("PKCS#11 not yet implemented".to_owned()))
    }

    fn sign(&self, key_ref: &KeyReference, msg: &[u8]) -> (r: Result<Vec<u8>>)
        ensures
            r matches Err(e) && e.kind() == ErrorKind::Io,
    {
        Err(Error::Io("PKCS#11 not yet implemented".to_owned()))
    }

    fn public_key(&self, key_ref: &KeyReference) -> (r: Result<Vec<u8>>)
        ensures
            r matches Err(e) && e.kind() == ErrorKind::Io,
    {
        Err(Error::Io("PKCS#11 not yet implemented".to_owned()))
    }

    fn is_valid(&self, key_ref: &KeyReference) -> (r: bool)
        ensures
            !r,
    {
        false
    }

    fn delete(&mut self, key_ref: &KeyReference) -> (r: Result<()>)
        ensures
            r matches Err(e) && e.kind() == ErrorKind::Io,
    {
        Err(Error::Io("PKCS#11 not yet implemented".to_owned()))
    }

    fn list_keys(&self) -> (r: Vec<KeyReference>)
        ensures
            r@.len() == 0,
    {
        Vec::new()
    }
}

/// A TPM 2.0 device. Not yet supported: opening one fails with an `Io`
/// error, and so does every operation.
pub struct TpmKeyStore;

impl TpmKeyStore {
    /// Opens the system TPM.
    pub fn new() -> (r: Result<Self>)
        ensures
            r matches Err(e) && e.kind() == ErrorKind::Io,
    {
        Err(Error::Io("TPM not yet implemented".to_owned()))
    }
}

impl SecureKeyStore for TpmKeyStore {
    fn generate(&mut self, algorithm: Algorithm, attrs: KeyAttributes) -> (r: Result<KeyReference>)
        ensures
            r matches Err(e) && e.kind() == ErrorKind::Io,
    {
        Err(Error::Io("TPM not yet implemented".to_owned()))
    }

    fn sign(&self, key_ref: &KeyReference, msg: &[u8]) -> (r: Result<Vec<u8>>)
        ensures
            r matches Err(e) && e.kind() == ErrorKind::Io,
    {
        Err(Error::Io("TPM not yet implemented".to_owned()))
    }

    fn public_key(&self, key_ref: &KeyReference) -> (r: Result<Vec<u8>>)
        ensures
            r matches Err(e) && e.kind() == ErrorKind::Io,
    {
        Err(Error::Io("TPM not yet implemented".to_owned()))
    }

    fn is_valid(&self, key_ref: &KeyReference) -> (r: bool)
        ensures
            !r,
    {
        false
    }

    fn delete(&mut self, key_ref: &KeyReference) -> (r: Result<()>)
        ensures
            r matches Err(e) && e.kind() == ErrorKind::Io,
    {
        Err(Error::Io("TPM not yet implemented".to_owned()))
    }

    fn list_keys(&self) -> (r: Vec<KeyReference>)
        ensures
            r@.len() == 0,
    {
        Vec::new()
    }
}


// ---------------------------------------------------------------------
// Key identifiers in order

/// Lexicographic order of byte strings, the order of key identifiers in
/// the software store (a proper prefix comes first).
pub open spec fn lex_lt(a: Seq<u8>, b: Seq<u8>) -> bool
    decreases a.len(),
{
    if a.len() == 0 || b.len() == 0 {
        a.len() < b.len()
    } else if a[0] != b[0] {
        a[0] < b[0]
    } else {
        lex_lt(a.drop_first(), b.drop_first())
    }
}

/// No byte string comes before itself.
pub proof fn lemma_lex_irreflexive(a: Seq<u8>)
    ensures
        !lex_lt(a, a),
    decreases a.len(),
{
    if a.len() > 0 {
        lemma_lex_irreflexive(a.drop_first());
    }
}

/// The order is transitive.
pub proof fn lemma_lex_transitive(a: Seq<u8>, b: Seq<u8>, c: Seq<u8>)
    requires
        lex_lt(a, b),
        lex_lt(b, c),
    ensures
        lex_lt(a, c),
    decreases a.len(),
{
    if a.len() > 0 && b.len() > 0 && c.len() > 0 && a[0] == b[0] && b[0] == c[0] {
        lemma_lex_transitive(a.drop_first(), b.drop_first(), c.drop_first());
    }
}

/// Two different byte strings of one length are ordered one way or the
/// other.
pub proof fn lemma_lex_total(a: Seq<u8>, b: Seq<u8>)
    requires
        a.len() == b.len(),
        a != b,
    ensures
        lex_lt(a, b) || lex_lt(b, a),
    decreases a.len(),
{
    if a.len() == 0 {
        assert(a =~= b);
    } else if a[0] == b[0] {
        if a.drop_first() =~= b.drop_first() {
            assert forall|i: int| 0 <= i < a.len() implies a[i] == b[i] by {
                if i > 0 {
                    assert(a[i] == a.drop_first()[i - 1]);
                    assert(b[i] == b.drop_first()[i - 1]);
                }
            }
            assert(a =~= b);
        } else {
            lemma_lex_total(a.drop_first(), b.drop_first());
        }
    }
}

/// Whether key identifier `a` comes before `b`.
fn kid_lt(a: &[u8; 32], b: &[u8; 32]) -> (r: bool)
    ensures
        r == lex_lt(a@, b@),
{
    let mut i: usize = 0;
    assert(a@.skip(0) =~= a@);
    assert(b@.skip(0) =~= b@);
    while i < 32
        invariant
            i <= 32,
            a@.len() == 32,
            b@.len() == 32,
            lex_lt(a@, b@) == lex_lt(a@.skip(i as int), b@.skip(i as int)),
        decreases 32 - i,
    {
        assert(a@.skip(i as int)[0] == a@[i as int]);
        assert(b@.skip(i as int)[0] == b@[i as int]);
        if a[i] != b[i] {
            return a[i] < b[i];
        }
        assert(a@.skip(i as int).drop_first() =~= a@.skip(i as int + 1));
        assert(b@.skip(i as int).drop_first() =~= b@.skip(i as int + 1));
        i = i + 1;
    }
    assert(a@.skip(32).len() == 0);
    false
}


// ---------------------------------------------------------------------
// Software key store

/// Private key material of the software store: signing-key seeds.
#[derive(Debug, Clone, Copy, PartialEq, Eq)]
pub enum KeyMaterial {
    /// An Ed25519 seed.
    Ed25519([u8; 32]),
    /// An ML-DSA-65 seed.
    MlDsa65([u8; 32]),
    /// An Ed25519 seed and an ML-DSA-65 seed.
    Composite([u8; 32], [u8; 32]),
}

/// The algorithm of key material.
pub open spec fn material_algorithm(m: KeyMaterial) -> Algorithm {
    match m {
        KeyMaterial::Ed25519(_) => Algorithm::Ed25519,
        KeyMaterial::MlDsa65(_) => Algorithm::MlDsa65,
        KeyMaterial::Composite(_, _) => Algorithm::Composite,
    }
}

impl KeyMaterial {
    /// The algorithm the material is for (`material_algorithm`).
    pub fn algorithm(&self) -> (r: Algorithm)
        ensures
            r == material_algorithm(*self),
    {
        match self {
            KeyMaterial::Ed25519(_) => Algorithm::Ed25519,
            KeyMaterial::MlDsa65(_) => Algorithm::MlDsa65,
            KeyMaterial::Composite(_, _) => Algorithm::Composite,
        }
    }
}

/// The public key the store reports: the Ed25519 or ML-DSA-65 key, or
/// for a composite the Ed25519 key followed by the ML-DSA-65 key.
pub open spec fn spec_material_public(m: KeyMaterial) -> Seq<u8> {
    match m {
        KeyMaterial::Ed25519(s) => spec_ed25519_public(s@),
        KeyMaterial::MlDsa65(s) => spec_mldsa65_public(s@),
        KeyMaterial::Composite(e, l) => spec_ed25519_public(e@) + spec_mldsa65_public(l@),
    }
}

/// The identifier a key is stored under: the BLAKE3 hash of its public
/// key, for a composite of the ML-DSA-65 key followed by the Ed25519 key.
pub open spec fn spec_material_kid(m: KeyMaterial) -> Seq<u8> {
    match m {
        KeyMaterial::Ed25519(s) => spec_blake3(spec_ed25519_public(s@)),
        KeyMaterial::MlDsa65(s) => spec_blake3(spec_mldsa65_public(s@)),
        KeyMaterial::Composite(e, l) => spec_blake3(spec_mldsa65_public(l@) + spec_ed25519_public(e@)),
    }
}

/// The context string of composite signatures made by the store,
/// `"Axiom-Provenance-v1"`.
pub open spec fn store_context() -> Seq<u8> {
    seq![0x41u8, 0x78, 0x69, 0x6f, 0x6d, 0x2d, 0x50, 0x72, 0x6f, 0x76, 0x65, 0x6e, 0x61, 0x6e, 0x63, 0x65, 0x2d,
        0x76, 0x31]
}

fn store_context_bytes() -> (r: [u8; 19])
    ensures
        r@ == store_context(),
{
    let r: [u8; 19] = [0x41, 0x78, 0x69, 0x6f, 0x6d, 0x2d, 0x50, 0x72, 0x6f, 0x76, 0x65, 0x6e, 0x61, 0x6e, 0x63,
        0x65, 0x2d, 0x76, 0x31];
    assert(r@ =~= store_context());
    r
}

/// The signature of `msg` the store makes with key material: Ed25519;
/// ML-DSA-65 (`None` when it gives up); for a composite, the ML-DSA-65
/// signature followed by the Ed25519ph signature under `store_context`.
pub open spec fn spec_material_sign(m: KeyMaterial, msg: Seq<u8>) -> Option<Seq<u8>> {
    match m {
        KeyMaterial::Ed25519(s) => Some(spec_ed25519_sign(s@, msg)),
        KeyMaterial::MlDsa65(s) => spec_mldsa65_sign(s@, msg),
        KeyMaterial::Composite(e, l) => match spec_mldsa65_sign(l@, msg) {
            None => None,
            Some(ms) => Some(ms + spec_ed25519ph_sign(e@, store_context(), msg)),
        },
    }
}

/// A composite signature the store makes is laid out as envelopes carry
/// one (`spec_composite_bytes`): the 3309-byte ML-DSA-65 signature of the
/// message first, then its 64-byte Ed25519ph signature under the store's
/// context, so that `CompositeSignature::from_bytes` splits it back into
/// those two signatures.
pub proof fn law_store_composite_layout(e: [u8; 32], l: [u8; 32], msg: Seq<u8>, ml: Seq<u8>)
    requires
        spec_mldsa65_sign(l@, msg) == Some(ml),
        ml.len() == 3309,
        spec_ed25519ph_sign(e@, store_context(), msg).len() == 64,
    ensures
        spec_material_sign(KeyMaterial::Composite(e, l), msg)
            == Some(crate::cose::spec_composite_bytes(spec_ed25519ph_sign(e@, store_context(), msg), ml)),
        spec_material_sign(KeyMaterial::Composite(e, l), msg) matches Some(sig) ==> (sig.len() == 3373
            && sig.subrange(0, 3309) == ml
            && sig.subrange(3309, 3373) == spec_ed25519ph_sign(e@, store_context(), msg)),
{
    let ed = spec_ed25519ph_sign(e@, store_context(), msg);
    assert((ml + ed).subrange(0, 3309) =~= ml);
    assert((ml + ed).subrange(3309, 3373) =~= ed);
}

/// Whether `sig` verifies for `msg` under the public key of the material.
pub open spec fn spec_material_verifies(m: KeyMaterial, msg: Seq<u8>, sig: Seq<u8>) -> bool {
    match m {
        KeyMaterial::Ed25519(s) => spec_ed25519_verify(spec_ed25519_public(s@), msg, sig),
        KeyMaterial::MlDsa65(s) => spec_mldsa65_verify(spec_mldsa65_public(s@), msg, sig),
        KeyMaterial::Composite(e, l) => sig.len() == 3373
            && spec_mldsa65_verify(spec_mldsa65_public(l@), msg, sig.subrange(0, 3309))
            && spec_ed25519ph_verify(spec_ed25519_public(e@), store_context(), msg, sig.subrange(3309, 3373)),
    }
}

/// One stored key.
struct StoredKey {
    kid: [u8; 32],
    material: KeyMaterial,
    attrs: KeyAttributes,
}

/// Whether some stored key has identifier `k`.
pub open spec fn has_kid(s: Seq<Seq<u8>>, k: Seq<u8>) -> bool {
    exists|i: int| 0 <= i < s.len() && s[i] == k
}

spec fn seq_kids(s: Seq<StoredKey>) -> Seq<Seq<u8>> {
    s.map_values(|k: StoredKey| k.kid@)
}

spec fn seq_sorted(s: Seq<StoredKey>) -> bool {
    forall|i: int, j: int| 0 <= i < j < s.len() ==> lex_lt(#[trigger] s[i].kid@, #[trigger] s[j].kid@)
}

spec fn map_of(s: Seq<StoredKey>) -> Map<Seq<u8>, KeyMaterial> {
    Map::new(|k: Seq<u8>| has_kid(seq_kids(s), k),
        |k: Seq<u8>| s[choose|i: int| 0 <= i < s.len() && s[i].kid@ == k].material)
}

/// A key store holding its keys in memory, ordered by identifier.
/// Private key material stays in host memory: for testing and
/// development only.
pub struct SoftwareKeyStore {
    keys: Vec<StoredKey>,
}

impl SoftwareKeyStore {
    /// The stored key material, by identifier.
    pub closed spec fn materials(self) -> Map<Seq<u8>, KeyMaterial> {
        map_of(self.keys@)
    }

    #[verifier::type_invariant]
    spec fn sorted(self) -> bool {
        seq_sorted(self.keys@)
    }
}

impl View for SoftwareKeyStore {
    type V = Map<Seq<u8>, KeyMaterial>;

    open spec fn view(&self) -> Map<Seq<u8>, KeyMaterial> {
        self.materials()
    }
}

proof fn lemma_has_kid(s: Seq<StoredKey>, k: Seq<u8>)
    ensures
        has_kid(seq_kids(s), k) <==> exists|i: int| 0 <= i < s.len() && #[trigger] s[i].kid@ == k,
{
    if has_kid(seq_kids(s), k) {
        let i = choose|i: int| 0 <= i < seq_kids(s).len() && seq_kids(s)[i] == k;
        assert(s[i].kid@ == k);
    }
    if exists|i: int| 0 <= i < s.len() && #[trigger] s[i].kid@ == k {
        let i = choose|i: int| 0 <= i < s.len() && #[trigger] s[i].kid@ == k;
        assert(seq_kids(s)[i] == k);
    }
}

proof fn lemma_map_of_index(s: Seq<StoredKey>, i: int)
    requires
        seq_sorted(s),
        0 <= i < s.len(),
    ensures
        map_of(s).contains_key(s[i].kid@),
        map_of(s)[s[i].kid@] == s[i].material,
{
    lemma_has_kid(s, s[i].kid@);
    let j = choose|j: int| 0 <= j < s.len() && s[j].kid@ == s[i].kid@;
    if j < i {
        assert(lex_lt(s[j].kid@, s[i].kid@));
        lemma_lex_irreflexive(s[i].kid@);
    } else if j > i {
        assert(lex_lt(s[i].kid@, s[j].kid@));
        lemma_lex_irreflexive(s[i].kid@);
    }
}

proof fn lemma_map_of_insert(s: Seq<StoredKey>, p: int, e: StoredKey)
    requires
        seq_sorted(s),
        seq_sorted(s.insert(p, e)),
        0 <= p <= s.len(),
        !has_kid(seq_kids(s), e.kid@),
    ensures
        map_of(s.insert(p, e)) =~= map_of(s).insert(e.kid@, e.material),
{
    let t = s.insert(p, e);
    assert forall|k: Seq<u8>| #[trigger] map_of(t).contains_key(k) <==> map_of(s).insert(e.kid@, e.material).contains_key(k) by {
        lemma_has_kid(t, k);
        lemma_has_kid(s, k);
        if map_of(s).contains_key(k) {
            let i = choose|i: int| 0 <= i < s.len() && #[trigger] s[i].kid@ == k;
            if i < p {
                assert(t[i] == s[i]);
            } else {
                assert(t[i + 1] == s[i]);
            }
        }
        if k == e.kid@ {
            assert(t[p] == e);
        }
        if map_of(t).contains_key(k) {
            let i = choose|i: int| 0 <= i < t.len() && #[trigger] t[i].kid@ == k;
            if i < p {
                assert(t[i] == s[i]);
            } else if i > p {
                assert(t[i] == s[i - 1]);
            }
        }
    }
    assert forall|k: Seq<u8>| #[trigger] map_of(t).contains_key(k) implies map_of(t)[k] == map_of(s).insert(e.kid@, e.material)[k] by {
        lemma_has_kid(t, k);
        let i = choose|i: int| 0 <= i < t.len() && #[trigger] t[i].kid@ == k;
        lemma_map_of_index(t, i);
        if i < p {
            assert(t[i] == s[i]);
            lemma_map_of_index(s, i);
            lemma_has_kid(s, e.kid@);
        } else if i > p {
            assert(t[i] == s[i - 1]);
            lemma_map_of_index(s, i - 1);
            lemma_has_kid(s, e.kid@);
        } else {
            assert(t[p] == e);
        }
    }
}

proof fn lemma_map_of_remove(s: Seq<StoredKey>, p: int)
    requires
        seq_sorted(s),
        0 <= p < s.len(),
    ensures
        seq_sorted(s.remove(p)),
        map_of(s.remove(p)) =~= map_of(s).remove(s[p].kid@),
{
    let t = s.remove(p);
    let kp = s[p].kid@;
    assert forall|i: int, j: int| 0 <= i < j < t.len() implies lex_lt(#[trigger] t[i].kid@, #[trigger] t[j].kid@) by {
        let i0 = if i < p { i } else { i + 1 };
        let j0 = if j < p { j } else { j + 1 };
        assert(t[i] == s[i0]);
        assert(t[j] == s[j0]);
    }
    assert forall|k: Seq<u8>| #[trigger] map_of(t).contains_key(k) <==> map_of(s).remove(kp).contains_key(k) by {
        lemma_has_kid(t, k);
        lemma_has_kid(s, k);
        if map_of(s).contains_key(k) && k != kp {
            let i = choose|i: int| 0 <= i < s.len() && #[trigger] s[i].kid@ == k;
            if i < p {
                assert(t[i] == s[i]);
            } else {
                assert(t[i - 1] == s[i]);
            }
        }
        if map_of(t).contains_key(k) {
            let i = choose|i: int| 0 <= i < t.len() && #[trigger] t[i].kid@ == k;
            let i0 = if i < p { i } else { i + 1 };
            assert(t[i] == s[i0]);
            assert(i0 != p);
            if i0 < p {
                assert(lex_lt(s[i0].kid@, kp));
            } else {
                assert(lex_lt(kp, s[i0].kid@));
            }
            lemma_lex_irreflexive(kp);
        }
    }
    assert forall|k: Seq<u8>| #[trigger] map_of(t).contains_key(k) implies map_of(t)[k] == map_of(s).remove(kp)[k] by {
        lemma_has_kid(t, k);
        let i = choose|i: int| 0 <= i < t.len() && #[trigger] t[i].kid@ == k;
        let i0 = if i < p { i } else { i + 1 };
        assert(t[i] == s[i0]);
        lemma_map_of_index(t, i);
        lemma_map_of_index(s, i0);
    }
}


fn random_seed() -> (r: [u8; 32]) {
    let b = random_bytes(32);
    to_array(b.as_slice())
}

fn material_kid(m: &KeyMaterial) -> (r: [u8; 32])
    ensures
        r@ == spec_material_kid(*m),
{
    match m {
        KeyMaterial::Ed25519(sd) => {
            let pk = ed25519_public(sd);
            blake3(pk.as_slice())
        },
        KeyMaterial::MlDsa65(sd) => {
            let pk = mldsa65_public(sd);
            blake3(pk.as_slice())
        },
        KeyMaterial::Composite(e, l) => {
            let mut v: Vec<u8> = Vec::new();
            let ml_pk = mldsa65_public(l);
            let ed_pk = ed25519_public(e);
            append_bytes(&mut v, ml_pk.as_slice());
            append_bytes(&mut v, ed_pk.as_slice());
            blake3(v.as_slice())
        },
    }
}

fn material_public(m: &KeyMaterial) -> (r: Vec<u8>)
    ensures
        r@ == spec_material_public(*m),
{
    let mut v: Vec<u8> = Vec::new();
    match m {
        KeyMaterial::Ed25519(sd) => {
            let pk = ed25519_public(sd);
            append_bytes(&mut v, pk.as_slice());
        },
        KeyMaterial::MlDsa65(sd) => {
            let pk = mldsa65_public(sd);
            append_bytes(&mut v, pk.as_slice());
        },
        KeyMaterial::Composite(e, l) => {
            let ed_pk = ed25519_public(e);
            let ml_pk = mldsa65_public(l);
            append_bytes(&mut v, ed_pk.as_slice());
            append_bytes(&mut v, ml_pk.as_slice());
        },
    }
    v
}

fn material_sign(m: &KeyMaterial, msg: &[u8]) -> (r: Option<Vec<u8>>)
    ensures
        match spec_material_sign(*m, msg@) {
            Some(sig) => r matches Some(v) && v@ == sig && spec_material_verifies(*m, msg@, v@),
            None => r is None,
        },
{
    let mut v: Vec<u8> = Vec::new();
    match m {
        KeyMaterial::Ed25519(sd) => {
            let sig = ed25519_sign(sd, msg);
            append_bytes(&mut v, sig.as_slice());
            Some(v)
        },
        KeyMaterial::MlDsa65(sd) => {
            match mldsa65_sign(sd, msg) {
                Some(sig) => {
                    append_bytes(&mut v, sig.as_slice());
                    Some(v)
                },
                None => None,
            }
        },
        KeyMaterial::Composite(e, l) => {
            let ctx = store_context_bytes();
            let ed_sig = match ed25519ph_sign(e, ctx.as_slice(), msg) {
                Some(sig) => sig,
                None => { return None; },
            };
            match mldsa65_sign(l, msg) {
                Some(ml_sig) => {
                    append_bytes(&mut v, ml_sig.as_slice());
                    append_bytes(&mut v, ed_sig.as_slice());
                    assert(v@.subrange(0, 3309) =~= ml_sig@);
                    assert(v@.subrange(3309, 3373) =~= ed_sig@);
                    Some(v)
                },
                None => None,
            }
        },
    }
}

fn insertion_point(keys: &Vec<StoredKey>, kid: &[u8; 32]) -> (p: usize)
    requires
        seq_sorted(keys@),
        !has_kid(seq_kids(keys@), kid@),
    ensures
        p <= keys@.len(),
        forall|j: int| 0 <= j < p ==> lex_lt(#[trigger] keys@[j].kid@, kid@),
        p < keys@.len() ==> lex_lt(kid@, keys@[p as int].kid@),
{
    proof {
        lemma_has_kid(keys@, kid@);
    }
    let mut p: usize = 0;
    while p < keys.len()
        invariant
            p <= keys@.len(),
            forall|j: int| 0 <= j < p ==> lex_lt(#[trigger] keys@[j].kid@, kid@),
            forall|i: int| 0 <= i < keys@.len() ==> #[trigger] keys@[i].kid@ != kid@,
        decreases keys@.len() - p,
    {
        if !kid_lt(&keys[p].kid, kid) {
            proof {
                assert(keys@[p as int].kid@ != kid@);
                lemma_lex_total(keys@[p as int].kid@, kid@);
            }
            return p;
        }
        p = p + 1;
    }
    p
}

impl SoftwareKeyStore {
    /// An empty store.
    pub fn new() -> (r: Self)
        ensures
            r@ == Map::<Seq<u8>, KeyMaterial>::empty(),
    {
        let r = SoftwareKeyStore { keys: Vec::new() };
        assert(r@ =~= Map::<Seq<u8>, KeyMaterial>::empty());
        r
    }

    fn find(&self, kid: &[u8; 32]) -> (r: Option<usize>)
        ensures
            match r {
                Some(i) => i < self.keys@.len() && self.keys@[i as int].kid@ == kid@ && self@.contains_key(kid@)
                    && self@[kid@] == self.keys@[i as int].material,
                None => !self@.contains_key(kid@),
            },
    {
        proof {
            use_type_invariant(self);
            lemma_has_kid(self.keys@, kid@);
        }
        let mut i: usize = 0;
        while i < self.keys.len()
            invariant
                i <= self.keys@.len(),
                seq_sorted(self.keys@),
                forall|j: int| 0 <= j < i ==> #[trigger] self.keys@[j].kid@ != kid@,
            decreases self.keys@.len() - i,
        {
            if crate::cbor_payload::bytes_eq(self.keys[i].kid.as_slice(), kid.as_slice()) {
                proof {
                    lemma_map_of_index(self.keys@, i as int);
                }
                return Some(i);
            }
            i = i + 1;
        }
        None
    }

    /// Stores `material` under its identifier (`spec_material_kid`); an
    /// identifier already in use is a `Crypto` error and leaves the store
    /// unchanged.
    pub fn store_material(&mut self, material: KeyMaterial, attrs: KeyAttributes) -> (r: Result<KeyReference>)
        ensures
            old(self)@.contains_key(spec_material_kid(material)) ==> (r matches Err(e) && e.kind() == ErrorKind::Crypto
                && final(self)@ == old(self)@),
            !old(self)@.contains_key(spec_material_kid(material)) ==> (r matches Ok(k)
                && k.kid@ == spec_material_kid(material)
                && k.algorithm == material_algorithm(material)
                && final(self)@ == old(self)@.insert(k.kid@, material)),
    {
        proof {
            use_type_invariant(&*self);
        }
        let algorithm = material.algorithm();
        let kid = material_kid(&material);
        if self.find(&kid).is_some() {
            return Err(crypto_error("key collision"));
        }
        let ghost s = self.keys@;
        proof {
            lemma_has_kid(s, kid@);
            assert(!has_kid(seq_kids(s), kid@));
        }
        let mut keys: Vec<StoredKey> = Vec::new();
        std::mem::swap(&mut keys, &mut self.keys);
        assert(keys@ == s);
        let p = insertion_point(&keys, &kid);
        let entry = StoredKey { kid, material, attrs };
        keys.insert(p, entry);
        proof {
            let t = keys@;
            assert(t == s.insert(p as int, entry));
            assert forall|i: int, j: int| 0 <= i < j < t.len() implies lex_lt(#[trigger] t[i].kid@, #[trigger] t[j].kid@) by {
                if j < p {
                    assert(t[i] == s[i] && t[j] == s[j]);
                } else if j == p {
                    assert(t[i] == s[i] && t[j] == entry);
                } else if i < p {
                    assert(t[i] == s[i] && t[j] == s[j - 1]);
                } else if i == p {
                    assert(t[i] == entry && t[j] == s[j - 1]);
                    if j - 1 > p {
                        assert(lex_lt(s[p as int].kid@, s[j - 1].kid@));
                        lemma_lex_transitive(kid@, s[p as int].kid@, s[j - 1].kid@);
                    }
                } else {
                    assert(t[i] == s[i - 1] && t[j] == s[j - 1]);
                }
            }
            lemma_map_of_insert(s, p as int, entry);
            lemma_map_of_index(t, p as int);
        }
        self.keys = keys;
        Ok(KeyReference { kid, algorithm })
    }
}

impl SecureKeyStore for SoftwareKeyStore {
    /// Generates fresh key material from the system random generator and
    /// stores it (`store_material`); an identifier already in use is a
    /// `Crypto` error and leaves the store unchanged.
    fn generate(&mut self, algorithm: Algorithm, attrs: KeyAttributes) -> (r: Result<KeyReference>)
        ensures
            match r {
                Ok(k) => k.algorithm == algorithm
                    && !old(self)@.contains_key(k.kid@)
                    && final(self)@.contains_key(k.kid@)
                    && material_algorithm(final(self)@[k.kid@]) == algorithm
                    && k.kid@ == spec_material_kid(final(self)@[k.kid@])
                    && final(self)@ == old(self)@.insert(k.kid@, final(self)@[k.kid@]),
                Err(e) => e.kind() == ErrorKind::Crypto && final(self)@ == old(self)@,
            },
    {
        let material = match algorithm {
            Algorithm::Ed25519 => KeyMaterial::Ed25519(random_seed()),
            Algorithm::MlDsa65 => KeyMaterial::MlDsa65(random_seed()),
            Algorithm::Composite => KeyMaterial::Composite(random_seed(), random_seed()),
        };
        self.store_material(material, attrs)
    }

    /// Signs `msg` with the referenced key (see `spec_material_sign`); an
    /// unknown key, or ML-DSA-65 giving up, is a `Crypto` error. A
    /// signature verifies under the key's public key.
    fn sign(&self, key_ref: &KeyReference, msg: &[u8]) -> (r: Result<Vec<u8>>)
        ensures
            !self@.contains_key(key_ref.kid@) ==> (r matches Err(e) && e.kind() == ErrorKind::Crypto),
            self@.contains_key(key_ref.kid@) ==> match spec_material_sign(self@[key_ref.kid@], msg@) {
                Some(sig) => r matches Ok(v) && v@ == sig && spec_material_verifies(self@[key_ref.kid@], msg@, v@),
                None => r matches Err(e) && e.kind() == ErrorKind::Crypto,
            },
    {
        let i = match self.find(&key_ref.kid) {
            Some(i) => i,
            None => { return Err(crypto_error("key not found")); },
        };
        match material_sign(&self.keys[i].material, msg) {
            Some(v) => Ok(v),
            None => Err(crypto_error("ML-DSA-65 signing failed")),
        }
    }

    /// The public key of the referenced key (see `spec_material_public`);
    /// an unknown key is a `Crypto` error.
    fn public_key(&self, key_ref: &KeyReference) -> (r: Result<Vec<u8>>)
        ensures
            !self@.contains_key(key_ref.kid@) ==> (r matches Err(e) && e.kind() == ErrorKind::Crypto),
            self@.contains_key(key_ref.kid@) ==> (r matches Ok(v) && v@ == spec_material_public(self@[key_ref.kid@])),
    {
        let i = match self.find(&key_ref.kid) {
            Some(i) => i,
            None => { return Err(crypto_error("key not found")); },
        };
        Ok(material_public(&self.keys[i].material))
    }

    /// Whether a key is stored under the reference's identifier.
    fn is_valid(&self, key_ref: &KeyReference) -> (r: bool)
        ensures
            r == self@.contains_key(key_ref.kid@),
    {
        self.find(&key_ref.kid).is_some()
    }

    /// Removes the referenced key; an unknown key is a `Crypto` error and
    /// leaves the store unchanged.
    fn delete(&mut self, key_ref: &KeyReference) -> (r: Result<()>)
        ensures
            old(self)@.contains_key(key_ref.kid@) ==> (r is Ok && final(self)@ == old(self)@.remove(key_ref.kid@)),
            !old(self)@.contains_key(key_ref.kid@) ==> (r matches Err(e) && e.kind() == ErrorKind::Crypto
                && final(self)@ == old(self)@),
    {
        proof {
            use_type_invariant(&*self);
        }
        let i = match self.find(&key_ref.kid) {
            Some(i) => i,
            None => { return Err(crypto_error("key not found")); },
        };
        let ghost s = self.keys@;
        let mut keys: Vec<StoredKey> = Vec::new();
        std::mem::swap(&mut keys, &mut self.keys);
        assert(keys@ == s);
        let _removed = keys.remove(i);
        proof {
            lemma_map_of_remove(s, i as int);
        }
        self.keys = keys;
        Ok(())
    }

    /// References to the stored keys, in identifier order.
    fn list_keys(&self) -> (r: Vec<KeyReference>)
        ensures
            forall|i: int, j: int| 0 <= i < j < r@.len() ==> lex_lt(#[trigger] r@[i].kid@, #[trigger] r@[j].kid@),
            forall|i: int| 0 <= i < r@.len() ==> self@.contains_key(#[trigger] r@[i].kid@)
                && r@[i].algorithm == material_algorithm(self@[r@[i].kid@]),
            forall|k: Seq<u8>| #[trigger] self@.contains_key(k) ==> exists|i: int| 0 <= i < r@.len() && r@[i].kid@ == k,
    {
        proof {
            use_type_invariant(self);
        }
        let mut out: Vec<KeyReference> = Vec::new();
        let mut i: usize = 0;
        while i < self.keys.len()
            invariant
                i <= self.keys@.len(),
                out@.len() == i,
                seq_sorted(self.keys@),
                forall|j: int| 0 <= j < i ==> (#[trigger] out@[j]).kid@ == self.keys@[j].kid@
                    && out@[j].algorithm == material_algorithm(self.keys@[j].material),
            decreases self.keys@.len() - i,
        {
            let alg = match self.keys[i].material {
                KeyMaterial::Ed25519(_) => Algorithm::Ed25519,
                KeyMaterial::MlDsa65(_) => Algorithm::MlDsa65,
                KeyMaterial::Composite(_, _) => Algorithm::Composite,
            };
            out.push(KeyReference { kid: self.keys[i].kid, algorithm: alg });
            i = i + 1;
        }
        proof {
            assert forall|a: int, b: int| 0 <= a < b < out@.len() implies lex_lt(#[trigger] out@[a].kid@, #[trigger] out@[b].kid@) by {
                assert(out@[a].kid@ == self.keys@[a].kid@);
                assert(out@[b].kid@ == self.keys@[b].kid@);
            }
            assert forall|a: int| 0 <= a < out@.len() implies self@.contains_key(#[trigger] out@[a].kid@)
                && out@[a].algorithm == material_algorithm(self@[out@[a].kid@]) by {
                lemma_map_of_index(self.keys@, a);
            }
            assert forall|k: Seq<u8>| #[trigger] self@.contains_key(k) implies exists|a: int| 0 <= a < out@.len() && out@[a].kid@ == k by {
                lemma_has_kid(self.keys@, k);
                let a = choose|a: int| 0 <= a < self.keys@.len() && #[trigger] self.keys@[a].kid@ == k;
                assert(out@[a].kid@ == k);
            }
        }
        out
    }
}


/// Generating a key and then deleting it leaves the store as it was: the
/// new key is held in between, and the other keys are untouched.
pub proof fn law_store_generate_then_delete(before: Map<Seq<u8>, KeyMaterial>, kid: Seq<u8>, m: KeyMaterial)
    requires
        !before.contains_key(kid),
    ensures
        before.insert(kid, m).contains_key(kid),
        before.insert(kid, m)[kid] == m,
        before.insert(kid, m).remove(kid) == before,
{
    assert(before.insert(kid, m).remove(kid) =~= before);
}

} // verus!
