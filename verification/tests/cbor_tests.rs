//! Payload encoding and strict decoding.
use verax::cbor::{
    RecoveryPolicy,
    decode_bstr_len, decode_payload, decode_text_string, encode_payload, encode_text_string, is_strictly_deterministic, skip_value,
    Value, VeraxPayload,
};
use verax::error::Error;
use verax::predicate::Predicate;


#[test]
fn test_round_trip_minimal() {
    let payload = VeraxPayload::new([0xabu8; 32], Predicate::Attests);
    let encoded = payload.encode();
    let decoded = VeraxPayload::decode(&encoded).unwrap();
    assert_eq!(decoded.subject, payload.subject);
    assert_eq!(decoded.predicate, payload.predicate);
}

#[test]
fn test_round_trip_full() {
    let mut p = VeraxPayload::new([0x01; 32], Predicate::DerivedFrom);
    p.object = Some([0x02; 32]);
    p.timestamp = Some(1700000000);
    p.lineage = Some([0x03; 32]);
    p.nonce = Some([0x04; 32]);
    p.anchor_hash = Some([0x05; 32]);
    p.extensions = Some(vec![
        (100, Value::Uint(42)),
        (101, Value::Bstr(vec![1, 2, 3])),
    ]);

    let encoded = p.encode();
    let decoded = VeraxPayload::decode(&encoded).unwrap();
    assert_eq!(decoded.subject, p.subject);
    assert_eq!(decoded.predicate, p.predicate);
    assert_eq!(decoded.object, p.object);
    assert_eq!(decoded.timestamp, p.timestamp);
    assert_eq!(decoded.lineage, p.lineage);
    assert_eq!(decoded.nonce, p.nonce);
    assert_eq!(decoded.anchor_hash, p.anchor_hash);
    assert_eq!(decoded.extensions, p.extensions);
}

#[test]
fn test_deterministic_encoding() {
    let a = {
        let mut p = VeraxPayload::new([0x01; 32], Predicate::Authors);
        p.object = Some([0x02; 32]);
        p.encode()
    };
    let b = {
        let mut p = VeraxPayload::new([0x01; 32], Predicate::Authors);
        p.object = Some([0x02; 32]);
        p.encode()
    };
    assert_eq!(a, b);
}

#[test]
fn test_rejects_null_bytes() {
    let buf = vec![0xa1, 0x01, 0xf6]; // map {1: null}
    assert!(VeraxPayload::decode(&buf).is_err());
}

#[test]
fn test_rejects_float() {
    let buf = vec![0xa1, 0x01, 0xfa, 0x00, 0x00, 0x00, 0x00]; // map {1: float(0)}
    assert!(VeraxPayload::decode(&buf).is_err());
}

#[test]
fn test_rejects_tags() {
    let mut data = vec![0xc1]; // tag(1) prefix
    let inner = VeraxPayload::new([0x01; 32], Predicate::Attests).encode();
    data.extend_from_slice(&inner);
    assert!(VeraxPayload::decode(&data).is_err());
}

#[test]
fn test_missing_subject_fails() {
    let buf = vec![0xa1, 0x02, 0x01]; // map {2: 1} — missing subject
    assert!(VeraxPayload::decode(&buf).is_err());
}

#[test]
fn test_subject_wrong_length() {
    // map {1: h'00...00'} with 16 bytes instead of 32
    let mut buf = vec![0xa1, 0x01, 0x58, 0x10];
    buf.resize(buf.len() + 16, 0x00);
    assert!(VeraxPayload::decode(&buf).is_err());
}

/// Simple deterministic PRNG for fuzz-like testing (no_std compatible).
struct FuzzRng(u64);
impl FuzzRng {
    fn new(seed: u64) -> Self {
        Self(seed)
    }
    fn next_u32(&mut self) -> u32 {
        self.0 = self
            .0
            .wrapping_mul(6364136223846793005)
            .wrapping_add(1442695040888963407);
        (self.0 >> 33) as u32
    }
    fn next_u64(&mut self) -> u64 {
        ((self.next_u32() as u64) << 32) | self.next_u32() as u64
    }
    fn fill_bytes(&mut self, buf: &mut [u8]) {
        for chunk in buf.chunks_mut(4) {
            let val = self.next_u32().to_le_bytes();
            for (d, s) in chunk.iter_mut().zip(val.iter()) {
                *d = *s;
            }
        }
    }
}

fn random_32_bytes(rng: &mut FuzzRng) -> [u8; 32] {
    let mut buf = [0u8; 32];
    rng.fill_bytes(&mut buf);
    buf
}

/// Fuzz-like stress test: 10,000 random payload round-trips.
#[test]
fn test_fuzz_roundtrip_random_payloads() {
    let mut rng = FuzzRng::new(42);
    for pred in 0..9 {
        let predicate = Predicate::from_u8(pred).unwrap();
        for _ in 0..1000 {
            let subject = random_32_bytes(&mut rng);
            let mut p = VeraxPayload::new(subject, predicate);
            if rng.next_u32() % 2 == 0 {
                p.object = Some(random_32_bytes(&mut rng));
            }
            if rng.next_u32() % 2 == 0 {
                p.timestamp = Some(rng.next_u64());
            }
            if rng.next_u32() % 2 == 0 {
                p.lineage = Some(random_32_bytes(&mut rng));
            }
            if rng.next_u32() % 2 == 0 {
                p.nonce = Some(random_32_bytes(&mut rng));
            }
            if rng.next_u32() % 2 == 0 {
                p.anchor_hash = Some(random_32_bytes(&mut rng));
            }
            if rng.next_u32() % 2 == 0 {
                let exts = vec![
                    (100u64, Value::Uint(rng.next_u64())),
                    (101u64, Value::Bstr(random_32_bytes(&mut rng).to_vec())),
                ];
                p.extensions = Some(exts);
            }
            let encoded = p.encode();
            assert!(!encoded.is_empty());
            let encoded2 = p.encode();
            assert_eq!(encoded, encoded2, "determinism violated");
            let decoded = VeraxPayload::decode(&encoded).unwrap();
            assert_eq!(decoded, p, "round-trip failed for pred {pred}");
            assert!(is_strictly_deterministic(&encoded));
        }
    }
}

/// Fuzz-like stress test: 5,000 random byte slices must not panic the decoder.
#[test]
fn test_fuzz_decode_never_panics() {
    let mut rng = FuzzRng::new(99);
    for _ in 0..5000 {
        let len = (rng.next_u32() % 256) as usize;
        let mut bytes = vec![0u8; len];
        rng.fill_bytes(&mut bytes);
        let _ = VeraxPayload::decode(&bytes);
    }
}

/// Fuzz-like test: 2,000 non-canonical encodings must not panic.
#[test]
fn test_fuzz_rejects_non_canonical_uint() {
    let mut rng = FuzzRng::new(123);
    for _ in 0..2000 {
        let subject = random_32_bytes(&mut rng);
        let pred: u8 = (rng.next_u32() % 9) as u8;
        let mut buf = vec![0xbb, 0, 0, 0, 0, 0, 0, 0, 2];
        buf.push(0x01);
        buf.push(0x58);
        buf.push(32);
        buf.extend_from_slice(&subject);
        buf.push(0x02);
        buf.push(pred);
        let _ = VeraxPayload::decode(&buf);
    }
}

/// Fuzz-like test: duplicate keys always rejected.
#[test]
fn test_fuzz_rejects_duplicate_keys() {
    let mut rng = FuzzRng::new(456);
    for _ in 0..1000 {
        let subject = random_32_bytes(&mut rng);
        let pred: u8 = (rng.next_u32() % 9) as u8;
        let mut buf = vec![0xa3, 0x01, 0x58, 0x20];
        buf.extend_from_slice(&subject);
        buf.extend_from_slice(&[0x01, 0x58, 0x20]);
        buf.extend_from_slice(&subject);
        buf.extend_from_slice(&[0x02, pred]);
        assert!(VeraxPayload::decode(&buf).is_err(), "duplicate keys");
    }
}

/// Edge case: empty input must be rejected without panic.
#[test]
fn test_fuzz_empty_input() {
    assert!(VeraxPayload::decode(&[]).is_err());
}

/// Edge case: single byte input must be rejected without panic.
#[test]
fn test_fuzz_single_byte() {
    for b in 0..=255u8 {
        let _ = VeraxPayload::decode(&[b]);
    }
}

/// Indefinite-length items must be rejected.
#[test]
fn test_rejects_indefinite_length() {
    // indefinite-length map (0xbf), then break (0xff)
    assert!(VeraxPayload::decode(&[0xbf, 0xff]).is_err());
    // indefinite-length array (0x9f), then break (0xff)
    assert!(VeraxPayload::decode(&[0x9f, 0xff]).is_err());
    // indefinite-length bstr (0x5f), then break (0xff)
    assert!(VeraxPayload::decode(&[0x5f, 0xff]).is_err());
    // indefinite-length text (0x7f), then break (0xff)
    assert!(VeraxPayload::decode(&[0x7f, 0xff]).is_err());
}

/// Tags at the value level (not just wrapping the whole payload) must be rejected.
#[test]
fn test_rejects_tagged_values_inner() {
    // map {1: h'0000...00'} where the bstr is wrapped in tag(1): 0xc1
    let mut buf = vec![0xa1, 0x01, 0xc1, 0x58, 0x20];
    buf.resize(buf.len() + 32, 0x00);
    assert!(VeraxPayload::decode(&buf).is_err());
}

/// Map keys must be sorted by raw CBOR-encoded bytes (bytewise), not numerically.
/// Key 10 (0x0a) sorts AFTER key 2 (0x02) bytewise. A map with key 10 before
/// key 2 must be rejected as non-canonical.
#[test]
fn test_rejects_bytewise_unsorted_keys() {
    // Construct a 3-entry map: {1: subject, 10: uint(42), 2: predicate}
    // Key 10 appears before key 2 — violates bytewise canonical order.
    let subject = [0x01u8; 32];
    let mut buf = vec![0xa3]; // map(3)
    // key 1 (subject)
    buf.extend_from_slice(&[0x01, 0x58, 0x20]);
    buf.extend_from_slice(&subject);
    // key 10 (extension-like uint) — out of order, should come after key 2
    buf.extend_from_slice(&[0x0a, 0x18, 0x2a]); // key=10, value=uint(42)
    // key 2 (predicate)
    buf.extend_from_slice(&[0x02, 0x00]); // key=2, value=uint(0=Attests)
    assert!(
        VeraxPayload::decode(&buf).is_err(),
        "map with key 10 before key 2 must be rejected (bytewise unsorted)"
    );
}

/// Canonical encoding must place key 2 before key 10. Prove that a properly
/// sorted payload encodes key 2 before key 10 in the output bytes.
#[test]
fn test_bytewise_sorted_keys_in_encoded_output() {
    let subject = [0xabu8; 32];
    let mut p = VeraxPayload::new(subject, Predicate::Attests);
    // Add an extension at key 10 (private-use range)
    p.extensions = Some(vec![(10u64, Value::Uint(42))]);
    let encoded = p.encode();
    // Find the positions of key bytes 0x02 and 0x0a in the encoded form
    let pos_key2 = encoded.iter().position(|&b| b == 0x02);
    let pos_key10 = encoded.iter().position(|&b| b == 0x0a);
    assert!(
        pos_key2.is_some(),
        "key 2 must be present in encoded output"
    );
    assert!(
        pos_key10.is_some(),
        "key 10 must be present in encoded output"
    );
    assert!(
        pos_key2.unwrap() < pos_key10.unwrap(),
        "key 2 (0x02) must appear before key 10 (0x0a) in bytewise-sorted encoding, \
         but found key 2 at byte {} and key 10 at byte {}",
        pos_key2.unwrap(),
        pos_key10.unwrap()
    );
}

#[test]
fn cbor_text_string_head_and_read_back() {
    let mut buf = Vec::new();
    encode_text_string(&mut buf, "hi");
    assert_eq!(buf, vec![0x62, b'h', b'i']);
    let mut off = 0usize;
    assert_eq!(decode_text_string(&buf, &mut off).unwrap(), b"hi".to_vec());
    assert_eq!(off, 3);
}

#[test]
fn cbor_bstr_len_reads_head_only() {
    let data = [0x58u8, 0x20];
    let mut off = 0usize;
    assert_eq!(decode_bstr_len(&data, &mut off).unwrap(), 32);
    assert_eq!(off, 2);
    let mut off = 0usize;
    assert!(decode_bstr_len(&[0x62u8, 0x61, 0x62], &mut off).is_err());
    let mut off = 0usize;
    assert!(decode_bstr_len(&[0x58u8], &mut off).is_err());
}

fn payload_with_key_100(value: &[u8]) -> Vec<u8> {
    let mut data = vec![0xa3, 0x01, 0x58, 0x20];
    data.extend_from_slice(&[0x01; 32]);
    data.extend_from_slice(&[0x02, 0x00, 0x18, 0x64]);
    data.extend_from_slice(value);
    data
}

#[test]
fn cbor_extension_values_follow_the_determinism_rules() {
    // shortest form: accepted
    assert!(decode_payload(&payload_with_key_100(&[0x05])).is_ok());
    // a non-shortest integer head
    assert!(decode_payload(&payload_with_key_100(&[0x18, 0x05])).is_err());
    // a tag
    assert!(decode_payload(&payload_with_key_100(&[0xc1, 0x00])).is_err());
    // simple values false, true, null, undefined
    for b in [0xf4u8, 0xf5, 0xf6, 0xf7] {
        assert!(decode_payload(&payload_with_key_100(&[b])).is_err());
    }
}

#[test]
fn cbor_skip_rejects_tags_and_long_heads() {
    let mut off = 0usize;
    assert!(skip_value(&[0xc1, 0x00, 0x05], &mut off).is_err());
    let mut off = 0usize;
    assert!(skip_value(&[0x18, 0x05], &mut off).is_err());
    let mut off = 0usize;
    assert!(skip_value(&[0xf5], &mut off).is_err());
    let mut off = 0usize;
    assert!(skip_value(&[0x82, 0x01, 0x18, 0x20], &mut off).is_ok());
    assert_eq!(off, 4);
}

#[test]
fn cbor_array_extension_round_trip() {
    let mut p = VeraxPayload::new([0x01; 32], Predicate::Attests);
    p.extensions = Some(vec![(100, Value::Array(vec![Value::Uint(1), Value::Bstr(vec![7, 8])]))]);
    assert_eq!(decode_payload(&encode_payload(&p)), Ok(p));
}

/// Builds a payload with subject, predicate and an extension map nested
/// `levels` deep.
fn nested_extensions_payload(levels: usize) -> Vec<u8> {
    let mut buf = vec![0xa3, 0x01, 0x58, 0x20];
    buf.extend_from_slice(&[0x11; 32]);
    buf.extend_from_slice(&[0x02, 0x00, 0x07]);
    for _ in 0..levels {
        buf.extend_from_slice(&[0xa1, 0x00]);
    }
    buf.push(0x00);
    buf
}

#[test]
fn decode_refuses_deep_nesting_with_its_message() {
    let deep = nested_extensions_payload(70);
    assert_eq!(
        decode_payload(&deep),
        Err(Error::Decode("nesting depth exceeded".to_string()))
    );
    let shallow = nested_extensions_payload(3);
    let p = decode_payload(&shallow).unwrap();
    assert!(p.extensions.is_some());
}

#[test]
fn decode_payload_messages_name_the_fault() {
    // trailing byte after a complete payload
    let mut buf = VeraxPayload::new([0x22; 32], Predicate::Attests).encode();
    buf.push(0x00);
    assert_eq!(decode_payload(&buf), Err(Error::Payload("trailing data after payload".to_string())));
    // predicate out of range
    let mut buf = vec![0xa2, 0x01, 0x58, 0x20];
    buf.extend_from_slice(&[0x22; 32]);
    buf.extend_from_slice(&[0x02, 0x09]);
    assert_eq!(decode_payload(&buf), Err(Error::Payload("invalid predicate".to_string())));
    // missing predicate
    let mut buf = vec![0xa1, 0x01, 0x58, 0x20];
    buf.extend_from_slice(&[0x22; 32]);
    assert_eq!(decode_payload(&buf), Err(Error::Payload("missing required field: predicate".to_string())));
    // reserved key
    let mut buf = vec![0xa3, 0x01, 0x58, 0x20];
    buf.extend_from_slice(&[0x22; 32]);
    buf.extend_from_slice(&[0x02, 0x00, 0x09, 0x00]);
    assert_eq!(decode_payload(&buf), Err(Error::Payload("unknown reserved key".to_string())));
    // a float in the extensions
    let mut buf = vec![0xa3, 0x01, 0x58, 0x20];
    buf.extend_from_slice(&[0x22; 32]);
    buf.extend_from_slice(&[0x02, 0x00, 0x07, 0xa1, 0x00, 0xf9, 0x00, 0x00]);
    assert_eq!(decode_payload(&buf), Err(Error::Decode("floats, null and undefined not allowed".to_string())));
}

#[test]
fn recovery_policy_needs_guardians_threshold_and_32_byte_hashes() {
    // only a threshold
    assert!(matches!(RecoveryPolicy::decode(&[0xa1, 0x02, 0x03]), Err(Error::Payload(_))));
    // only guardians
    let mut only_guardians = vec![0xa1, 0x01, 0x81, 0x58, 0x20];
    only_guardians.extend_from_slice(&[0x44; 32]);
    assert!(matches!(RecoveryPolicy::decode(&only_guardians), Err(Error::Payload(_))));
    // a guardian hash of 31 bytes
    let mut short = vec![0xa2, 0x01, 0x81, 0x58, 0x1f];
    short.extend_from_slice(&[0x44; 31]);
    short.extend_from_slice(&[0x02, 0x01]);
    assert!(matches!(RecoveryPolicy::decode(&short), Err(Error::Payload(_))));
    // all three in order decode, and re-encode to the same bytes
    let mut good = vec![0xa2, 0x01, 0x81, 0x58, 0x20];
    good.extend_from_slice(&[0x44; 32]);
    good.extend_from_slice(&[0x02, 0x01]);
    let p = RecoveryPolicy::decode(&good).unwrap();
    assert_eq!(p.guardians, vec![[0x44; 32]]);
    assert_eq!(p.threshold, 1);
    assert_eq!(p.encode(), good);
}
