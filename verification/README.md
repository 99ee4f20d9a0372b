# verax

A tamper-evident provenance protocol, written in Verus and proved against
its contracts: deterministic CBOR payloads, COSE_Sign1 envelopes signed with
Ed25519, ML-DSA-65 or both (composite), Certificate-Transparency anchors,
full statement verification against a trust store, crypto-shredding of
personal data, and a software key store.

## Layout

- `src/` — the verified library.
  - `cbor`, `cbor_value`, `cbor_payload` — deterministic CBOR: heads, strings,
    skipping, extension values, the payload and the recovery policy, with the
    round-trip and determinism laws.
  - `cose` — envelope building and parsing, signing and verification with
    the three algorithms, composite signatures.
  - `ct` — Merkle inclusion proofs, signed tree heads, their CBOR forms, and
    anchors carried in the unprotected header.
  - `statement`, `verify` — signed statements and the verification pipeline
    (envelope checks, signature, lineage, revocation, recovery, anchor),
    driven either by a `TrustStore` or by its replies given as values.
  - `store` — a trust store fixed in advance (pinned key, cached chain,
    trusted log key, revocation answers as of a checkpoint).
  - `shred`, `hsm`, `lint`, `artifact`, `hash`, `predicate`, `error`.
  - `crypto` — the calls into the cryptographic crates (BLAKE3, SHA-2,
    Ed25519, ML-DSA-65, XChaCha20-Poly1305, HPKE, the system random
    generator, zeroisation). Their contracts are trusted; everything else is
    proved.
- `tests/` — tests of the library on concrete values.
- `app/` — the command-line tool (`axiom`): file and terminal I/O, argument
  handling, JSON output.

## Laws

Properties that relate several functions are public proof functions named
`law_*` (for example `law_payload_roundtrip`, `law_encoding_is_deterministic`,
`law_anchor_header_roundtrip`, `law_hybrid_needs_both`); properties of one
function are stated in its `ensures`.
