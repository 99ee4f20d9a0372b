//! Deterministic CBOR primitives: argument heads, byte strings, text
//! strings and value skipping, together with their specifications.
//!
//! The payload codec built on them lives in `cbor_value` and
//! `cbor_payload`; its public items are re-exported here.
use vstd::prelude::*;
use crate::error::{Error, ErrorKind, Result, decode_error, error_message};
use vstd::string::StringSliceAdditionalSpecFns;

pub use crate::cbor_value::{Value, SpecValue};
pub use crate::cbor_payload::{
    AxiomPayload, PayloadModel, RecoveryPolicy, RecoveryPolicyModel, VeraxPayload, decode_payload,
    encode_payload, is_strictly_deterministic,
};

verus! {

/// Major type prefix of unsigned integers.
pub const MAJOR_UINT: u8 = 0x00;
/// Major type prefix of negative integers.
pub const MAJOR_NINT: u8 = 0x20;
/// Major type prefix of byte strings.
pub const MAJOR_BSTR: u8 = 0x40;
/// Major type prefix of text strings.
pub const MAJOR_TSTR: u8 = 0x60;
/// Major type prefix of arrays.
pub const MAJOR_ARRAY: u8 = 0x80;
/// Major type prefix of maps.
pub const MAJOR_MAP: u8 = 0xa0;

/// Maximum nesting depth of decoded containers.
pub const MAX_CBOR_DEPTH: u32 = 64;
/// Maximum number of entries of a decoded map.
pub const MAX_MAP_ENTRIES: usize = 512;
/// Maximum length of a decoded byte or text string.
pub const MAX_BSTR_LENGTH: usize = 1048576;

// ---------------------------------------------------------------------
// Big-endian numbers

/// Value of a big-endian byte sequence.
pub open spec fn be_value(s: Seq<u8>) -> nat
    decreases s.len(),
{
    if s.len() == 0 {
        0
    } else {
        be_value(s.drop_last()) * 256 + s.last() as nat
    }
}

/// The `n` least significant bytes of `v`, most significant first.
pub open spec fn be_bytes(v: nat, n: nat) -> Seq<u8>
    decreases n,
{
    if n == 0 {
        Seq::empty()
    } else {
        be_bytes(v / 256, (n - 1) as nat).push((v % 256) as u8)
    }
}

/// `256` to the power `n`.
pub open spec fn pow256(n: nat) -> nat
    decreases n,
{
    if n == 0 {
        1
    } else {
        256 * pow256((n - 1) as nat)
    }
}

pub proof fn lemma_pow256_values()
    ensures
        pow256(0) == 1,
        pow256(1) == 0x100,
        pow256(2) == 0x10000,
        pow256(4) == 0x100000000,
        pow256(8) == 0x10000000000000000,
{
    reveal_with_fuel(pow256, 9);
}

pub proof fn lemma_pow256_monotone(a: nat, b: nat)
    requires a <= b,
    ensures pow256(a) <= pow256(b),
    decreases b,
{
    if a < b {
        lemma_pow256_monotone(a, (b - 1) as nat);
    }
}

pub proof fn lemma_be_value_bound(s: Seq<u8>)
    ensures be_value(s) < pow256(s.len()),
    decreases s.len(),
{
    if s.len() > 0 {
        lemma_be_value_bound(s.drop_last());
        let a = be_value(s.drop_last());
        let p = pow256((s.len() - 1) as nat);
        let b = s.last() as int;
        assert(a * 256 + b < p * 256) by (nonlinear_arith)
            requires a < p, 0 <= b < 256;
    }
}

pub proof fn lemma_be_bytes_len(v: nat, n: nat)
    ensures be_bytes(v, n).len() == n,
    decreases n,
{
    if n > 0 {
        lemma_be_bytes_len(v / 256, (n - 1) as nat);
    }
}

/// Reading back `n` big-endian bytes of `v` gives `v` when it fits.
pub proof fn lemma_be_roundtrip(v: nat, n: nat)
    requires v < pow256(n),
    ensures be_value(be_bytes(v, n)) == v,
    decreases n,
{
    if n > 0 {
        let p = pow256((n - 1) as nat);
        assert(v / 256 < p) by (nonlinear_arith)
            requires v < 256 * p;
        lemma_be_roundtrip(v / 256, (n - 1) as nat);
        let s = be_bytes(v, n);
        assert(s.drop_last() =~= be_bytes(v / 256, (n - 1) as nat));
        assert(v == (v / 256) * 256 + v % 256) by (nonlinear_arith);
    }
}

/// Appends the `n` least significant bytes of `val`, most significant first.
pub(crate) fn push_be(buf: &mut Vec<u8>, val: u64, n: usize)
    requires n <= 8,
    ensures final(buf)@ == old(buf)@ + be_bytes(val as nat, n as nat),
    decreases n,
{
    if n > 0 {
        push_be(buf, val / 256, n - 1);
        buf.push((val % 256) as u8);
        assert(final(buf)@ =~= old(buf)@ + be_bytes(val as nat, n as nat));
    } else {
        assert(final(buf)@ =~= old(buf)@ + be_bytes(val as nat, n as nat));
    }
}

/// Reads `n` big-endian bytes starting at `start`.
fn read_be(data: &[u8], start: usize, n: usize) -> (v: u64)
    requires
        n <= 8,
        start + n <= data@.len(),
    ensures
        v == be_value(data@.subrange(start as int, start + n)),
{
    let mut v: u64 = 0;
    let mut i: usize = 0;
    while i < n
        invariant
            n <= 8,
            start + n <= data@.len(),
            i <= n,
            v == be_value(data@.subrange(start as int, start + i)),
        decreases n - i,
    {
        let ghost s = data@.subrange(start as int, start + i);
        proof {
            lemma_be_value_bound(s);
            lemma_pow256_monotone(i as nat, 7);
            lemma_pow256_values();
            reveal_with_fuel(pow256, 8);
            let a = v as int;
            let p = pow256(i as nat) as int;
            assert(p <= 0x100000000000000);
            assert(a * 256 + 255 < 0x10000000000000000) by (nonlinear_arith)
                requires a < p, p <= 0x100000000000000;
        }
        assert(start + i < data.len());
        let b = data[start + i];
        v = v * 256 + b as u64;
        i = i + 1;
        assert(data@.subrange(start as int, start + i).drop_last() =~= s);
    }
    v
}

// ---------------------------------------------------------------------
// Heads

/// Width in bytes of the argument announced by additional information `info`.
pub open spec fn arg_width(info: u8) -> nat {
    if info == 24 { 1 } else if info == 25 { 2 } else if info == 26 { 4 } else { 8 }
}

/// Smallest value that may use the width announced by `info` (shortest form).
pub open spec fn min_for_info(info: u8) -> nat {
    if info == 24 { 24 } else if info == 25 { 0x100 } else if info == 26 { 0x10000 } else { 0x100000000 }
}

/// Decoding of the argument that follows a head byte with additional
/// information `info`, the argument starting at `off`. Shortest form is
/// required.
pub open spec fn spec_decode_arg(data: Seq<u8>, off: int, info: u8) -> Option<(u64, int)> {
    if info < 24 {
        Some((info as u64, off))
    } else if info <= 27 {
        let w = arg_width(info);
        if off + w > data.len() {
            None
        } else {
            let v = be_value(data.subrange(off, off + w));
            if v < min_for_info(info) {
                None
            } else {
                Some((v as u64, off + w))
            }
        }
    } else {
        None
    }
}

/// Decoding of a head of major type `major` at `off`: its argument and the
/// offset that follows it.
pub open spec fn spec_decode_head(data: Seq<u8>, off: int, major: u8) -> Option<(u64, int)> {
    if off < 0 || off >= data.len() {
        None
    } else if data[off] / 32 != major {
        None
    } else {
        spec_decode_arg(data, off + 1, data[off] % 32)
    }
}

/// Shortest-form encoding of a head; `prefix` is the major type shifted
/// into the three high bits.
pub open spec fn spec_encode_head(prefix: u8, val: u64) -> Seq<u8> {
    if val < 24 {
        seq![(prefix + val) as u8]
    } else if val < 0x100 {
        seq![(prefix + 24) as u8] + be_bytes(val as nat, 1)
    } else if val < 0x10000 {
        seq![(prefix + 25) as u8] + be_bytes(val as nat, 2)
    } else if val < 0x100000000 {
        seq![(prefix + 26) as u8] + be_bytes(val as nat, 4)
    } else {
        seq![(prefix + 27) as u8] + be_bytes(val as nat, 8)
    }
}

/// Appends the shortest-form head of major type `prefix` and argument `val`.
pub fn encode_uint_head(buf: &mut Vec<u8>, prefix: u8, val: u64)
    requires
        prefix % 32 == 0,
    ensures
        final(buf)@ == old(buf)@ + spec_encode_head(prefix, val),
{
    if val < 24 {
        buf.push(prefix + val as u8);
        assert(final(buf)@ =~= old(buf)@ + spec_encode_head(prefix, val));
    } else if val < 0x100 {
        buf.push(prefix + 24);
        push_be(buf, val, 1);
        assert(final(buf)@ =~= old(buf)@ + spec_encode_head(prefix, val));
    } else if val < 0x10000 {
        buf.push(prefix + 25);
        push_be(buf, val, 2);
        assert(final(buf)@ =~= old(buf)@ + spec_encode_head(prefix, val));
    } else if val < 0x100000000 {
        buf.push(prefix + 26);
        push_be(buf, val, 4);
        assert(final(buf)@ =~= old(buf)@ + spec_encode_head(prefix, val));
    } else {
        buf.push(prefix + 27);
        push_be(buf, val, 8);
        assert(final(buf)@ =~= old(buf)@ + spec_encode_head(prefix, val));
    }
}

/// Appends an unsigned integer.
pub fn encode_uint(buf: &mut Vec<u8>, val: u64)
    ensures
        final(buf)@ == old(buf)@ + spec_encode_head(MAJOR_UINT, val),
{
    encode_uint_head(buf, MAJOR_UINT, val);
}

/// Encoding of a negative integer `val`.
pub open spec fn spec_encode_negative_int(val: i64) -> Seq<u8> {
    spec_encode_head(MAJOR_NINT, (-1 - val) as u64)
}

/// Appends a negative integer.
pub fn encode_negative_int(buf: &mut Vec<u8>, val: i64)
    requires
        val < 0,
    ensures
        final(buf)@ == old(buf)@ + spec_encode_negative_int(val),
{
    let n: u64 = (-1 - val) as u64;
    encode_uint_head(buf, MAJOR_NINT, n);
}

/// Appends raw bytes.
pub fn append_bytes(buf: &mut Vec<u8>, bytes: &[u8])
    ensures
        final(buf)@ == old(buf)@ + bytes@,
{
    let mut i: usize = 0;
    while i < bytes.len()
        invariant
            i <= bytes@.len(),
            buf@ == old(buf)@ + bytes@.subrange(0, i as int),
        decreases bytes@.len() - i,
    {
        buf.push(bytes[i]);
        i = i + 1;
        assert(buf@ =~= old(buf)@ + bytes@.subrange(0, i as int));
    }
    assert(bytes@.subrange(0, i as int) =~= bytes@);
}

/// Encoding of a byte string.
pub open spec fn spec_encode_bstr(data: Seq<u8>) -> Seq<u8> {
    spec_encode_head(MAJOR_BSTR, data.len() as u64) + data
}

/// Appends a byte string.
pub fn encode_bstr(buf: &mut Vec<u8>, data: &[u8])
    ensures
        final(buf)@ == old(buf)@ + spec_encode_bstr(data@),
{
    encode_uint_head(buf, MAJOR_BSTR, data.len() as u64);
    append_bytes(buf, data);
    assert(final(buf)@ =~= old(buf)@ + spec_encode_bstr(data@));
}

/// Encoding of a text string with the UTF-8 bytes `bytes`.
pub open spec fn spec_encode_text(bytes: Seq<u8>) -> Seq<u8> {
    spec_encode_head(MAJOR_TSTR, bytes.len() as u64) + bytes
}

/// Appends a text string.
pub fn encode_text_string(buf: &mut Vec<u8>, s: &str)
    ensures
        final(buf)@ == old(buf)@ + spec_encode_text(s.spec_bytes()),
{
    let bytes = s.as_bytes();
    encode_uint_head(buf, MAJOR_TSTR, bytes.len() as u64);
    append_bytes(buf, bytes);
    assert(final(buf)@ =~= old(buf)@ + spec_encode_text(s.spec_bytes()));
}

/// The message of a head that cannot be read at `off`.
pub open spec fn head_error_text(data: Seq<u8>, off: int, major: u8) -> Seq<char> {
    if off < 0 || off >= data.len() {
        "unexpected end of input"@
    } else if data[off] / 32 != major {
        "unexpected major type"@
    } else if data[off] % 32 > 27 {
        "reserved additional info"@
    } else if off + 1 + arg_width(data[off] % 32) > data.len() {
        "unexpected end of input"@
    } else {
        "non-canonical integer encoding"@
    }
}

/// Reads a head of major type `major` at `*offset` and returns its argument.
pub fn decode_head(data: &[u8], offset: &mut usize, major: u8) -> (r: Result<u64>)
    ensures
        match spec_decode_head(data@, *old(offset) as int, major) {
            Some((v, n)) => r == Ok::<u64, Error>(v) && *final(offset) == n,
            None => r matches Err(e) && e.kind() == ErrorKind::Decode
                && error_message(e) == head_error_text(data@, *old(offset) as int, major),
        },
{
    if *offset >= data.len() {
        return Err(decode_error("unexpected end of input"));
    }
    let byte = data[*offset];
    if byte / 32 != major {
        return Err(decode_error("unexpected major type"));
    }
    let info = byte % 32;
    let start = *offset + 1;
    if info < 24 {
        *offset = start;
        return Ok(info as u64);
    }
    if info > 27 {
        return Err(decode_error("reserved additional info"));
    }
    let w: usize = if info == 24 { 1 } else if info == 25 { 2 } else if info == 26 { 4 } else { 8 };
    let min: u64 = if info == 24 { 24 } else if info == 25 { 0x100 } else if info == 26 { 0x10000 } else { 0x100000000 };
    if w > data.len() - start {
        return Err(decode_error("unexpected end of input"));
    }
    let v = read_be(data, start, w);
    if v < min {
        return Err(decode_error("non-canonical integer encoding"));
    }
    *offset = start + w;
    Ok(v)
}

/// Reads an unsigned integer.
pub fn decode_uint(data: &[u8], offset: &mut usize) -> (r: Result<u64>)
    ensures
        match spec_decode_head(data@, *old(offset) as int, 0) {
            Some((v, n)) => r == Ok::<u64, Error>(v) && *final(offset) == n,
            None => r matches Err(e) && e.kind() == ErrorKind::Decode
                && error_message(e) == head_error_text(data@, *old(offset) as int, 0),
        },
{
    decode_head(data, offset, 0)
}

/// Value of a negative integer whose head carries the argument `n`
/// (`-1 - n`, computed in two's complement as the encoder does).
pub open spec fn spec_negative_value(n: u64) -> i64 {
    if n <= 0x7fffffffffffffff { (-1 - n) as i64 } else { (0xffffffffffffffff - n) as i64 }
}

/// Reads a negative integer.
pub fn decode_negative_int(data: &[u8], offset: &mut usize) -> (r: Result<i64>)
    ensures
        match spec_decode_head(data@, *old(offset) as int, 1) {
            Some((v, n)) => r == Ok::<i64, Error>(spec_negative_value(v)) && *final(offset) == n,
            None => r matches Err(e) && e.kind() == ErrorKind::Decode,
        },
{
    let n = decode_head(data, offset, 1)?;
    if n <= 0x7fffffffffffffff {
        Ok(-1 - (n as i64))
    } else {
        Ok((0xffffffffffffffffu64 - n) as i64)
    }
}

/// Reads the length of a byte string.
pub fn decode_bstr_len(data: &[u8], offset: &mut usize) -> (r: Result<u64>)
    ensures
        match spec_decode_head(data@, *old(offset) as int, 2) {
            Some((v, n)) => r == Ok::<u64, Error>(v) && *final(offset) == n,
            None => r matches Err(e) && e.kind() == ErrorKind::Decode
                && error_message(e) == head_error_text(data@, *old(offset) as int, 2),
        },
{
    decode_head(data, offset, 2)
}

/// Reads the length of a map.
pub fn decode_map_len(data: &[u8], offset: &mut usize) -> (r: Result<u64>)
    ensures
        match spec_decode_head(data@, *old(offset) as int, 5) {
            Some((v, n)) => r == Ok::<u64, Error>(v) && *final(offset) == n,
            None => r matches Err(e) && e.kind() == ErrorKind::Decode
                && error_message(e) == head_error_text(data@, *old(offset) as int, 5),
        },
{
    decode_head(data, offset, 5)
}

/// Reads the length of an array.
pub fn decode_array_len(data: &[u8], offset: &mut usize) -> (r: Result<u64>)
    ensures
        match spec_decode_head(data@, *old(offset) as int, 4) {
            Some((v, n)) => r == Ok::<u64, Error>(v) && *final(offset) == n,
            None => r matches Err(e) && e.kind() == ErrorKind::Decode
                && error_message(e) == head_error_text(data@, *old(offset) as int, 4),
        },
{
    decode_head(data, offset, 4)
}

/// Converts a decoded length, refusing values above `limit`.
pub fn bounded_usize(val: u64, limit: usize) -> (r: Result<usize>)
    ensures
        val <= limit ==> r == Ok::<usize, Error>(val as usize),
        val > limit ==> (r matches Err(e) && e.kind() == ErrorKind::Decode
            && error_message(e) == "length exceeds maximum"@),
{
    if val > limit as u64 {
        return Err(decode_error("length exceeds maximum"));
    }
    Ok(val as usize)
}

/// Decoding of a string of major type `major` (byte or text string) at
/// `off`: its content and the offset that follows it.
pub open spec fn spec_decode_string(data: Seq<u8>, off: int, major: u8) -> Option<(Seq<u8>, int)> {
    match spec_decode_head(data, off, major) {
        None => None,
        Some((len, o)) => {
            if len > MAX_BSTR_LENGTH || o + len > data.len() {
                None
            } else {
                Some((data.subrange(o, o + len), o + len))
            }
        },
    }
}

/// The message of a string that cannot be read at `off`.
pub open spec fn string_error_text(data: Seq<u8>, off: int, major: u8) -> Seq<char> {
    match spec_decode_head(data, off, major) {
        None => head_error_text(data, off, major),
        Some((n, o)) => if n > MAX_BSTR_LENGTH { "length exceeds maximum"@ } else { "unexpected end of string data"@ },
    }
}

fn decode_string(data: &[u8], offset: &mut usize, major: u8) -> (r: Result<Vec<u8>>)
    ensures
        match spec_decode_string(data@, *old(offset) as int, major) {
            Some((s, n)) => r matches Ok(v) && v@ == s && *final(offset) == n,
            None => r matches Err(e) && e.kind() == ErrorKind::Decode
                && error_message(e) == string_error_text(data@, *old(offset) as int, major),
        },
{
    let raw = decode_head(data, offset, major)?;
    let len = bounded_usize(raw, MAX_BSTR_LENGTH)?;
    if len > data.len() - *offset {
        return Err(decode_error("unexpected end of string data"));
    }
    let start = *offset;
    let result = vstd::slice::slice_to_vec(vstd::slice::slice_subrange(data, start, start + len));
    *offset = start + len;
    Ok(result)
}

/// Reads a byte string.
pub fn decode_bstr(data: &[u8], offset: &mut usize) -> (r: Result<Vec<u8>>)
    ensures
        match spec_decode_string(data@, *old(offset) as int, 2) {
            Some((s, n)) => r matches Ok(v) && v@ == s && *final(offset) == n,
            None => r matches Err(e) && e.kind() == ErrorKind::Decode
                && error_message(e) == string_error_text(data@, *old(offset) as int, 2),
        },
{
    decode_string(data, offset, 2)
}

/// Reads a text string and returns its UTF-8 bytes.
pub fn decode_text_string(data: &[u8], offset: &mut usize) -> (r: Result<Vec<u8>>)
    ensures
        match spec_decode_string(data@, *old(offset) as int, 3) {
            Some((s, n)) => r matches Ok(v) && v@ == s && *final(offset) == n,
            None => r matches Err(e) && e.kind() == ErrorKind::Decode,
        },
{
    decode_string(data, offset, 3)
}


/// Length of a head's encoding.
pub proof fn lemma_encode_head_len(prefix: u8, val: u64)
    ensures
        spec_encode_head(prefix, val).len() == if val < 24 { 1int } else if val < 0x100 { 2int }
            else if val < 0x10000 { 3int } else if val < 0x100000000 { 5int } else { 9int },
{
    lemma_be_bytes_len(val as nat, 1);
    lemma_be_bytes_len(val as nat, 2);
    lemma_be_bytes_len(val as nat, 4);
    lemma_be_bytes_len(val as nat, 8);
}

/// A head decodes to the argument it was encoded from, whatever follows it.
pub proof fn lemma_head_roundtrip(data: Seq<u8>, off: int, prefix: u8, val: u64)
    requires
        prefix % 32 == 0,
        0 <= off,
        off + spec_encode_head(prefix, val).len() <= data.len(),
        data.subrange(off, off + spec_encode_head(prefix, val).len()) == spec_encode_head(prefix, val),
    ensures
        spec_decode_head(data, off, prefix / 32) == Some((val, off + spec_encode_head(prefix, val).len())),
{
    let h = spec_encode_head(prefix, val);
    lemma_encode_head_len(prefix, val);
    lemma_pow256_values();
    assert(data[off] == h[0]);
    let w: nat = if val < 24 { 0 } else if val < 0x100 { 1 } else if val < 0x10000 { 2 }
        else if val < 0x100000000 { 4 } else { 8 };
    if val >= 24 {
        lemma_be_bytes_len(val as nat, w);
        lemma_be_roundtrip(val as nat, w);
        assert(data.subrange(off + 1, off + 1 + w) =~= h.subrange(1, 1 + w as int));
        assert(h.subrange(1, 1 + w as int) =~= be_bytes(val as nat, w));
    }
}

/// Length and offset of a string or container whose additional
/// information is `info`, the argument starting at `o` (no shortest-form
/// requirement: used when skipping).
pub open spec fn spec_raw_arg(data: Seq<u8>, o: int, info: u8) -> Option<(nat, int)> {
    if info < 24 {
        Some((info as nat, o))
    } else if info <= 27 {
        let w = arg_width(info);
        if o + w > data.len() {
            None
        } else {
            Some((be_value(data.subrange(o, o + w)), o + w))
        }
    } else {
        None
    }
}

/// Termination measure of skipping at nesting depth `depth`.
pub open spec fn skip_measure(depth: u32) -> nat {
    if depth <= 65 { (65 - depth) as nat } else { 0 }
}

/// Offset that follows the data item at `off`, skipped without
/// interpretation under the determinism rules: heads in shortest form,
/// no tags, no simple values from additional information 20 up (false,
/// true, null, undefined, floats), nesting limited to `MAX_CBOR_DEPTH`.
pub open spec fn spec_skip(data: Seq<u8>, off: int, depth: u32) -> Option<int>
    decreases skip_measure(depth), 0nat, 0nat,
{
    if off < 0 || off >= data.len() || depth > 64 {
        None
    } else {
        let b = data[off];
        let major = b / 32;
        let info = b % 32;
        if major <= 5 {
            match spec_decode_head(data, off, major) {
                None => None,
                Some((v, o2)) => if major <= 1 {
                    Some(o2)
                } else if major <= 3 {
                    if o2 + v > usize::MAX { None } else { Some(o2 + v) }
                } else {
                    spec_skip_n(data, o2, (depth + 1) as u32, if major == 4 { v as nat } else { 2 * v as nat })
                },
            }
        } else if major == 6 {
            None
        } else {
            if info >= 20 { None } else { Some(off + 1) }
        }
    }
}

/// The message of an item that cannot be skipped at `off` (see `spec_skip`).
pub open spec fn skip_error_text(data: Seq<u8>, off: int, depth: u32) -> Seq<char>
    decreases skip_measure(depth), 0nat, 0nat,
{
    if off < 0 || off >= data.len() {
        "unexpected end while skipping"@
    } else if depth > 64 {
        "nesting depth exceeded"@
    } else {
        let major = data[off] / 32;
        if major == 6 {
            "tags not allowed"@
        } else if major == 7 {
            "floats/null/undefined not allowed"@
        } else {
            match spec_decode_head(data, off, major) {
                None => head_error_text(data, off, major),
                Some((v, o2)) => if major <= 3 {
                    "offset overflow"@
                } else {
                    skip_n_error_text(data, o2, (depth + 1) as u32, if major == 4 { v as nat } else { 2 * v as nat })
                },
            }
        }
    }
}

/// The message of the first of `n` items that cannot be skipped from `off`.
pub open spec fn skip_n_error_text(data: Seq<u8>, off: int, depth: u32, n: nat) -> Seq<char>
    decreases skip_measure(depth), 1nat, n,
{
    if n == 0 {
        Seq::empty()
    } else {
        match spec_skip(data, off, depth) {
            None => skip_error_text(data, off, depth),
            Some(o) => skip_n_error_text(data, o, depth, (n - 1) as nat),
        }
    }
}

/// Offset that follows `n` data items skipped from `off`.
pub open spec fn spec_skip_n(data: Seq<u8>, off: int, depth: u32, n: nat) -> Option<int>
    decreases skip_measure(depth), 1nat, n,
{
    if n == 0 {
        Some(off)
    } else {
        match spec_skip(data, off, depth) {
            None => None,
            Some(o) => spec_skip_n(data, o, depth, (n - 1) as nat),
        }
    }
}

proof fn lemma_skip_n_unfold(data: Seq<u8>, off: int, depth: u32, n: nat)
    requires n > 0,
    ensures
        spec_skip_n(data, off, depth, n) == match spec_skip(data, off, depth) {
            None => None,
            Some(o) => spec_skip_n(data, o, depth, (n - 1) as nat),
        },
        skip_n_error_text(data, off, depth, n) == match spec_skip(data, off, depth) {
            None => skip_error_text(data, off, depth),
            Some(o) => skip_n_error_text(data, o, depth, (n - 1) as nat),
        },
{
}

/// Reads the raw argument of a string or container head (no shortest-form check).
pub(crate) fn read_raw_arg(data: &[u8], offset: &mut usize, info: u8) -> (r: Result<u64>)
    requires
        *old(offset) <= data@.len(),
    ensures
        match spec_raw_arg(data@, *old(offset) as int, info) {
            Some((v, n)) => v <= u64::MAX && r == Ok::<u64, Error>(v as u64) && *final(offset) == n,
            None => r matches Err(e) && e.kind() == ErrorKind::Decode,
        },
{
    if info < 24 {
        return Ok(info as u64);
    }
    if info > 27 {
        return Err(decode_error("reserved additional info"));
    }
    let w: usize = if info == 24 { 1 } else if info == 25 { 2 } else if info == 26 { 4 } else { 8 };
    if w > data.len() - *offset {
        return Err(decode_error("unexpected end of length"));
    }
    let start = *offset;
    let v = read_be(data, start, w);
    proof {
        lemma_be_value_bound(data@.subrange(start as int, start + w));
        lemma_pow256_monotone(w as nat, 8);
        lemma_pow256_values();
    }
    *offset = start + w;
    Ok(v)
}

/// Skips the data item at `*offset`, at nesting depth `depth`.
fn skip_value_depth(data: &[u8], offset: &mut usize, depth: u32) -> (r: Result<()>)
    ensures
        match spec_skip(data@, *old(offset) as int, depth) {
            Some(n) => r is Ok && *final(offset) == n,
            None => r matches Err(e) && e.kind() == ErrorKind::Decode
                && error_message(e) == skip_error_text(data@, *old(offset) as int, depth),
        },
    decreases skip_measure(depth),
{
    let ghost orig = *offset as int;
    if *offset >= data.len() {
        return Err(decode_error("unexpected end while skipping"));
    }
    if depth > MAX_CBOR_DEPTH {
        return Err(decode_error("nesting depth exceeded"));
    }
    let byte = data[*offset];
    let major = byte / 32;
    let info = byte % 32;
    if major == 6 {
        return Err(decode_error("tags not allowed"));
    }
    if major == 7 {
        if info >= 20 {
            return Err(decode_error("floats/null/undefined not allowed"));
        }
        *offset = *offset + 1;
        return Ok(());
    }
    let len = decode_head(data, offset, major)?;
    if major <= 1 {
        Ok(())
    } else if major <= 3 {
        if len as u128 > (usize::MAX - *offset) as u128 {
            return Err(decode_error("offset overflow"));
        }
        *offset = *offset + len as usize;
        Ok(())
    } else {
        let next = depth + 1;
        let ghost o2 = *offset as int;
        let ghost total: nat = if major == 4 { len as nat } else { 2 * len as nat };
        let mut i: u64 = 0;
        while i < len
            invariant
                i <= len,
                major == 4 || major == 5,
                total == if major == 4 { len as nat } else { 2 * len as nat },
                spec_skip_n(data@, o2, next, total) == spec_skip_n(data@, *offset as int, next,
                    (total - (if major == 4 { i as nat } else { 2 * i as nat })) as nat),
                depth <= 64,
                next == depth + 1,
                spec_skip(data@, orig, depth) == spec_skip_n(data@, o2, next, total),
                skip_n_error_text(data@, o2, next, total) == skip_n_error_text(data@, *offset as int, next,
                    (total - (if major == 4 { i as nat } else { 2 * i as nat })) as nat),
                skip_error_text(data@, orig, depth) == skip_n_error_text(data@, o2, next, total),
                orig == *old(offset) as int,
            decreases len - i,
        {
            let ghost before = *offset as int;
            let ghost left: nat = (total - (if major == 4 { i as nat } else { 2 * i as nat })) as nat;
            proof {
                lemma_skip_n_unfold(data@, before, next, left);
            }
            skip_value_depth(data, offset, next)?;
            if major == 5 {
                let ghost mid = *offset as int;
                proof {
                    lemma_skip_n_unfold(data@, mid, next, (left - 1) as nat);
                }
                skip_value_depth(data, offset, next)?;
            }
            i = i + 1;
        }
        Ok(())
    }
}

/// Skips the data item at `*offset`.
pub fn skip_value(data: &[u8], offset: &mut usize) -> (r: Result<()>)
    ensures
        match spec_skip(data@, *old(offset) as int, 0) {
            Some(n) => r is Ok && *final(offset) == n,
            None => r matches Err(e) && e.kind() == ErrorKind::Decode
                && error_message(e) == skip_error_text(data@, *old(offset) as int, 0),
        },
{
    skip_value_depth(data, offset, 0)
}


/// Skipping an item moves forward.
pub proof fn lemma_skip_advances(data: Seq<u8>, off: int, depth: u32)
    ensures
        spec_skip(data, off, depth) matches Some(e) ==> e > off,
    decreases skip_measure(depth), 0nat, 0nat,
{
    if !(off < 0 || off >= data.len() || depth > 64) {
        let b = data[off];
        let major = b / 32;
        let info = b % 32;
        let o = off + 1;
        if major == 4 || major == 5 {
            if let Some((len, o2)) = spec_decode_head(data, off, major) {
                lemma_decode_head_advances(data, off, major);
                lemma_skip_n_advances(data, o2, (depth + 1) as u32, if major == 4 { len as nat } else { 2 * len as nat });
            }
        } else if major <= 3 {
            lemma_decode_head_advances(data, off, major);
        }
    }
}

/// Reading a head moves forward.
pub proof fn lemma_decode_head_advances(data: Seq<u8>, off: int, major: u8)
    ensures
        spec_decode_head(data, off, major) matches Some((v, n)) ==> n > off,
{
}

/// Skipping items never moves backward.
pub proof fn lemma_skip_n_advances(data: Seq<u8>, off: int, depth: u32, n: nat)
    ensures
        spec_skip_n(data, off, depth, n) matches Some(e) ==> e >= off,
    decreases skip_measure(depth), 1nat, n,
{
    if n > 0 {
        lemma_skip_advances(data, off, depth);
        if let Some(o) = spec_skip(data, off, depth) {
            lemma_skip_n_advances(data, o, depth, (n - 1) as nat);
        }
    }
}

/// Skipping an integer head (major type 0 or 1) lands right after it.
pub proof fn lemma_skip_int_head(data: Seq<u8>, off: int, prefix: u8, val: u64)
    requires
        prefix == MAJOR_UINT || prefix == MAJOR_NINT,
        data.len() <= usize::MAX,
        0 <= off,
        off + spec_encode_head(prefix, val).len() <= data.len(),
        data.subrange(off, off + spec_encode_head(prefix, val).len()) == spec_encode_head(prefix, val),
    ensures
        spec_skip(data, off, 0) == Some(off + spec_encode_head(prefix, val).len()),
{
    let h = spec_encode_head(prefix, val);
    lemma_encode_head_len(prefix, val);
    assert(data[off] == h[0]);
    lemma_head_roundtrip(data, off, prefix, val);
}

/// Skipping a byte or text string lands right after it.
pub proof fn lemma_skip_string(data: Seq<u8>, off: int, major: u8, b: Seq<u8>)
    requires
        major == 2 || major == 3,
        b.len() <= u64::MAX,
        data.len() <= usize::MAX,
        0 <= off,
        off + spec_encode_head((major * 32) as u8, b.len() as u64).len() + b.len() <= data.len(),
        data.subrange(off, off + spec_encode_head((major * 32) as u8, b.len() as u64).len() + b.len())
            == spec_encode_head((major * 32) as u8, b.len() as u64) + b,
    ensures
        spec_skip(data, off, 0) == Some(off + spec_encode_head((major * 32) as u8, b.len() as u64).len() + b.len()),
{
    let prefix = (major * 32) as u8;
    let val = b.len() as u64;
    let h = spec_encode_head(prefix, val);
    lemma_split(data, off, h, b);
    lemma_encode_head_len(prefix, val);
    assert(data[off] == h[0]);
    lemma_head_roundtrip(data, off, prefix, val);
}

/// Splitting a known encoded region `x + y` at `a` into its two parts.
pub proof fn lemma_split(data: Seq<u8>, a: int, x: Seq<u8>, y: Seq<u8>)
    requires
        0 <= a,
        a + x.len() + y.len() <= data.len(),
        data.subrange(a, a + x.len() + y.len()) == x + y,
    ensures
        data.subrange(a, a + x.len()) == x,
        data.subrange(a + x.len(), a + x.len() + y.len()) == y,
{
    assert(data.subrange(a, a + x.len()) =~= (x + y).subrange(0, x.len() as int));
    assert(data.subrange(a + x.len(), a + x.len() + y.len()) =~= (x + y).subrange(x.len() as int, (x.len() + y.len()) as int));
    assert((x + y).subrange(0, x.len() as int) =~= x);
    assert((x + y).subrange(x.len() as int, (x.len() + y.len()) as int) =~= y);
}

/// A byte string decodes to the bytes it was encoded from.
pub proof fn lemma_bstr_roundtrip(data: Seq<u8>, off: int, b: Seq<u8>, major: u8)
    requires
        major == 2 || major == 3,
        b.len() <= MAX_BSTR_LENGTH,
        0 <= off,
        off + spec_encode_head((major * 32) as u8, b.len() as u64).len() + b.len() <= data.len(),
        data.subrange(off, off + spec_encode_head((major * 32) as u8, b.len() as u64).len() + b.len())
            == spec_encode_head((major * 32) as u8, b.len() as u64) + b,
    ensures
        spec_decode_string(data, off, major) == Some((b, off + spec_encode_head((major * 32) as u8, b.len() as u64).len() + b.len())),
{
    let h = spec_encode_head((major * 32) as u8, b.len() as u64);
    lemma_split(data, off, h, b);
    lemma_head_roundtrip(data, off, (major * 32) as u8, b.len() as u64);
}

} // verus!
