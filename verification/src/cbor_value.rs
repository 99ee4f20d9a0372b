//! Extension values of payloads: the [`Value`] tree, its mathematical model
//! [`SpecValue`], deterministic encoding (maps sorted by key, stably) and
//! decoding of extension maps.
use vstd::prelude::*;
use crate::cbor::{
    MAJOR_ARRAY, MAJOR_BSTR, MAJOR_MAP, MAJOR_UINT, MAX_BSTR_LENGTH, MAX_CBOR_DEPTH, MAX_MAP_ENTRIES,
    bounded_usize, decode_array_len, decode_bstr, decode_map_len, decode_uint, encode_bstr, encode_uint,
    encode_uint_head, lemma_bstr_roundtrip, lemma_head_roundtrip, lemma_split, spec_decode_head,
    spec_decode_string, spec_encode_bstr, spec_encode_head, head_error_text, string_error_text,
};
use crate::error::{Error, ErrorKind, Result, decode_error, error_message};

verus! {

/// A CBOR value used in extension maps.
#[derive(Debug, PartialEq)]
pub enum Value {
    /// An unsigned integer.
    Uint(u64),
    /// A byte string.
    Bstr(Vec<u8>),
    /// A map with unsigned integer keys; encoded with its entries sorted by key.
    Mapping(Vec<(u64, Value)>),
    /// An array of values.
    Array(Vec<Value>),
}

/// Mathematical model of a [`Value`].
pub enum SpecValue {
    Uint(u64),
    Bstr(Seq<u8>),
    Mapping(Seq<(u64, SpecValue)>),
    Array(Seq<SpecValue>),
}

impl Value {
    /// The model of this value, structure for structure.
    pub open spec fn model(self) -> SpecValue
        decreases self,
    {
        match self {
            Value::Uint(n) => SpecValue::Uint(n),
            Value::Bstr(b) => SpecValue::Bstr(b@),
            Value::Mapping(es) => SpecValue::Mapping(entries_model(es@)),
            Value::Array(items) => SpecValue::Array(items_model(items@)),
        }
    }
}

/// Models of map entries.
pub open spec fn entries_model(es: Seq<(u64, Value)>) -> Seq<(u64, SpecValue)>
    decreases es,
{
    if es.len() == 0 {
        Seq::empty()
    } else {
        entries_model(es.drop_last()).push((es.last().0, es.last().1.model()))
    }
}

/// Models of array items.
pub open spec fn items_model(es: Seq<Value>) -> Seq<SpecValue>
    decreases es,
{
    if es.len() == 0 {
        Seq::empty()
    } else {
        items_model(es.drop_last()).push(es.last().model())
    }
}

pub proof fn lemma_entries_model_index(es: Seq<(u64, Value)>)
    ensures
        entries_model(es).len() == es.len(),
        forall|i: int| 0 <= i < es.len() ==> #[trigger] entries_model(es)[i] == (es[i].0, es[i].1.model()),
    decreases es.len(),
{
    if es.len() > 0 {
        lemma_entries_model_index(es.drop_last());
    }
}

pub proof fn lemma_items_model_index(es: Seq<Value>)
    ensures
        items_model(es).len() == es.len(),
        forall|i: int| 0 <= i < es.len() ==> #[trigger] items_model(es)[i] == es[i].model(),
    decreases es.len(),
{
    if es.len() > 0 {
        lemma_items_model_index(es.drop_last());
    }
}

// ---------------------------------------------------------------------
// Stable sorting by key

/// Inserts `e` after the last entry whose key is at most `e.0`.
pub open spec fn insert_by_key<V>(s: Seq<(u64, V)>, e: (u64, V)) -> Seq<(u64, V)>
    decreases s.len(),
{
    if s.len() == 0 {
        seq![e]
    } else if s.last().0 <= e.0 {
        s.push(e)
    } else {
        insert_by_key(s.drop_last(), e).push(s.last())
    }
}

/// Stable insertion sort of entries by key.
pub open spec fn sort_by_key<V>(s: Seq<(u64, V)>) -> Seq<(u64, V)>
    decreases s.len(),
{
    if s.len() == 0 {
        s
    } else {
        insert_by_key(sort_by_key(s.drop_last()), s.last())
    }
}

/// Entries whose values are replaced by `f` of them.
pub open spec fn map_entry_values<A, B>(s: Seq<(u64, A)>, f: spec_fn(A) -> B) -> Seq<(u64, B)> {
    s.map_values(|e: (u64, A)| (e.0, f(e.1)))
}

pub proof fn lemma_insert_len<V>(s: Seq<(u64, V)>, e: (u64, V))
    ensures insert_by_key(s, e).len() == s.len() + 1,
    decreases s.len(),
{
    if s.len() > 0 && s.last().0 > e.0 {
        lemma_insert_len(s.drop_last(), e);
    }
}

pub proof fn lemma_sort_len<V>(s: Seq<(u64, V)>)
    ensures sort_by_key(s).len() == s.len(),
    decreases s.len(),
{
    if s.len() > 0 {
        lemma_sort_len(s.drop_last());
        lemma_insert_len(sort_by_key(s.drop_last()), s.last());
    }
}

proof fn lemma_insert_map<A, B>(s: Seq<(u64, A)>, e: (u64, A), f: spec_fn(A) -> B)
    ensures
        map_entry_values(insert_by_key(s, e), f) == insert_by_key(map_entry_values(s, f), (e.0, f(e.1))),
    decreases s.len(),
{
    let ms = map_entry_values(s, f);
    if s.len() == 0 {
        assert(map_entry_values(insert_by_key(s, e), f) =~= seq![(e.0, f(e.1))]);
    } else if s.last().0 <= e.0 {
        assert(map_entry_values(s.push(e), f) =~= ms.push((e.0, f(e.1))));
    } else {
        lemma_insert_map(s.drop_last(), e, f);
        assert(ms.drop_last() =~= map_entry_values(s.drop_last(), f));
        assert(map_entry_values(insert_by_key(s.drop_last(), e).push(s.last()), f)
            =~= map_entry_values(insert_by_key(s.drop_last(), e), f).push((s.last().0, f(s.last().1))));
    }
}

/// Sorting by key commutes with replacing the values.
pub proof fn lemma_sort_map<A, B>(s: Seq<(u64, A)>, f: spec_fn(A) -> B)
    ensures
        map_entry_values(sort_by_key(s), f) == sort_by_key(map_entry_values(s, f)),
    decreases s.len(),
{
    let ms = map_entry_values(s, f);
    if s.len() == 0 {
        assert(ms =~= Seq::<(u64, B)>::empty());
        assert(map_entry_values(sort_by_key(s), f) =~= Seq::<(u64, B)>::empty());
    } else {
        lemma_sort_map(s.drop_last(), f);
        lemma_insert_map(sort_by_key(s.drop_last()), s.last(), f);
        assert(ms.drop_last() =~= map_entry_values(s.drop_last(), f));
    }
}

pub proof fn lemma_entries_model_map(es: Seq<(u64, Value)>)
    ensures
        entries_model(es) == map_entry_values(es, |v: Value| v.model()),
{
    lemma_entries_model_index(es);
    assert(entries_model(es) =~= map_entry_values(es, |v: Value| v.model()));
}

/// Every key of `insert_by_key(s, e)` is a key of `s` or `e.0`; sorted stays sorted.
pub open spec fn keys_sorted<V>(s: Seq<(u64, V)>) -> bool {
    forall|i: int, j: int| 0 <= i < j < s.len() ==> s[i].0 <= s[j].0
}

proof fn lemma_insert_sorted<V>(s: Seq<(u64, V)>, e: (u64, V))
    requires keys_sorted(s),
    ensures
        keys_sorted(insert_by_key(s, e)),
        forall|i: int| 0 <= i < insert_by_key(s, e).len() ==>
            (#[trigger] insert_by_key(s, e)[i] == e || s.contains(insert_by_key(s, e)[i])),
    decreases s.len(),
{
    lemma_insert_len(s, e);
    if s.len() == 0 {
    } else if s.last().0 <= e.0 {
        let r = s.push(e);
        assert forall|i: int| 0 <= i < r.len() implies (#[trigger] r[i] == e || s.contains(r[i])) by {
            if i < s.len() { assert(r[i] == s[i]); }
        }
    } else {
        let d = s.drop_last();
        lemma_insert_sorted(d, e);
        let t = insert_by_key(d, e);
        lemma_insert_len(d, e);
        let r = t.push(s.last());
        assert forall|i: int, j: int| 0 <= i < j < r.len() implies r[i].0 <= r[j].0 by {
            if j == r.len() - 1 {
                if t[i] == e {
                } else {
                    let k = choose|k: int| 0 <= k < d.len() && d[k] == t[i];
                    assert(s[k] == d[k]);
                }
            }
        }
        assert forall|i: int| 0 <= i < r.len() implies (#[trigger] r[i] == e || s.contains(r[i])) by {
            if i < t.len() {
                if t[i] != e {
                    let k = choose|k: int| 0 <= k < d.len() && d[k] == t[i];
                    assert(s[k] == d[k]);
                }
            } else {
                assert(s[s.len() - 1] == s.last());
            }
        }
    }
}

/// The sorted entries are sorted by key.
pub proof fn lemma_sort_sorted<V>(s: Seq<(u64, V)>)
    ensures keys_sorted(sort_by_key(s)),
    decreases s.len(),
{
    if s.len() > 0 {
        lemma_sort_sorted(s.drop_last());
        lemma_insert_sorted(sort_by_key(s.drop_last()), s.last());
    }
}

proof fn lemma_insert_into_sorted_is_push<V>(s: Seq<(u64, V)>, e: (u64, V))
    requires
        keys_sorted(s.push(e)),
    ensures
        insert_by_key(s, e) == s.push(e),
{
    if s.len() > 0 {
        let t = s.push(e);
        assert(t[s.len() - 1] == s.last());
        assert(t[s.len() as int] == e);
        assert(t[s.len() - 1].0 <= t[s.len() as int].0);
    }
}

/// Sorting entries already sorted by key leaves them unchanged.
pub proof fn lemma_sort_sorted_identity<V>(s: Seq<(u64, V)>)
    requires keys_sorted(s),
    ensures sort_by_key(s) == s,
    decreases s.len(),
{
    if s.len() > 0 {
        let d = s.drop_last();
        assert(keys_sorted(d));
        lemma_sort_sorted_identity(d);
        assert(d.push(s.last()) =~= s);
        lemma_insert_into_sorted_is_push(d, s.last());
    }
}

// ---------------------------------------------------------------------
// Normal form and encoding

/// The normal form of a value: every map sorted by key, recursively.
pub open spec fn normalize(v: SpecValue) -> SpecValue
    decreases v,
{
    match v {
        SpecValue::Mapping(es) => SpecValue::Mapping(sort_by_key(normalize_entries(es))),
        SpecValue::Array(items) => SpecValue::Array(normalize_items(items)),
        _ => v,
    }
}

/// Entries with each value in normal form (order unchanged).
pub open spec fn normalize_entries(es: Seq<(u64, SpecValue)>) -> Seq<(u64, SpecValue)>
    decreases es,
{
    if es.len() == 0 {
        Seq::empty()
    } else {
        normalize_entries(es.drop_last()).push((es.last().0, normalize(es.last().1)))
    }
}

/// Items each in normal form.
pub open spec fn normalize_items(es: Seq<SpecValue>) -> Seq<SpecValue>
    decreases es,
{
    if es.len() == 0 {
        Seq::empty()
    } else {
        normalize_items(es.drop_last()).push(normalize(es.last()))
    }
}

pub proof fn lemma_normalize_entries_map(es: Seq<(u64, SpecValue)>)
    ensures
        normalize_entries(es) == map_entry_values(es, |v: SpecValue| normalize(v)),
    decreases es.len(),
{
    if es.len() > 0 {
        lemma_normalize_entries_map(es.drop_last());
        assert(normalize_entries(es) =~= map_entry_values(es, |v: SpecValue| normalize(v)));
    } else {
        assert(normalize_entries(es) =~= map_entry_values(es, |v: SpecValue| normalize(v)));
    }
}

pub proof fn lemma_normalize_items_index(es: Seq<SpecValue>)
    ensures
        normalize_items(es).len() == es.len(),
        forall|i: int| 0 <= i < es.len() ==> #[trigger] normalize_items(es)[i] == normalize(es[i]),
    decreases es.len(),
{
    if es.len() > 0 {
        lemma_normalize_items_index(es.drop_last());
    }
}

/// Encoding of a value, maps written in the order given.
pub open spec fn encode_ordered(v: SpecValue) -> Seq<u8>
    decreases v,
{
    match v {
        SpecValue::Uint(n) => spec_encode_head(MAJOR_UINT, n),
        SpecValue::Bstr(b) => spec_encode_bstr(b),
        SpecValue::Mapping(es) => spec_encode_head(MAJOR_MAP, es.len() as u64) + encode_entries(es),
        SpecValue::Array(items) => spec_encode_head(MAJOR_ARRAY, items.len() as u64) + encode_items(items),
    }
}

/// Encoding of map entries, in the order given.
pub open spec fn encode_entries(es: Seq<(u64, SpecValue)>) -> Seq<u8>
    decreases es,
{
    if es.len() == 0 {
        Seq::empty()
    } else {
        spec_encode_head(MAJOR_UINT, es[0].0) + encode_ordered(es[0].1) + encode_entries(es.drop_first())
    }
}

/// Encoding of array items, in the order given.
pub open spec fn encode_items(es: Seq<SpecValue>) -> Seq<u8>
    decreases es,
{
    if es.len() == 0 {
        Seq::empty()
    } else {
        encode_ordered(es[0]) + encode_items(es.drop_first())
    }
}

/// Deterministic encoding of a value: its normal form, written out.
pub open spec fn spec_encode_value(v: SpecValue) -> Seq<u8> {
    encode_ordered(normalize(v))
}

proof fn lemma_encode_entries_push(es: Seq<(u64, SpecValue)>, e: (u64, SpecValue))
    ensures
        encode_entries(es.push(e)) == encode_entries(es) + spec_encode_head(MAJOR_UINT, e.0) + encode_ordered(e.1),
    decreases es.len(),
{
    if es.len() == 0 {
        let t = es.push(e);
        assert(t[0] == e);
        assert(t.drop_first() =~= Seq::<(u64, SpecValue)>::empty());
        assert(encode_entries(t.drop_first()) == Seq::<u8>::empty());
        assert(encode_entries(es) == Seq::<u8>::empty());
        assert(encode_entries(t) =~= encode_entries(es) + spec_encode_head(MAJOR_UINT, e.0) + encode_ordered(e.1));
    } else {
        lemma_encode_entries_push(es.drop_first(), e);
        assert(es.push(e).drop_first() =~= es.drop_first().push(e));
        assert(encode_entries(es.push(e)) =~= encode_entries(es) + spec_encode_head(MAJOR_UINT, e.0) + encode_ordered(e.1));
    }
}

proof fn lemma_encode_items_push(es: Seq<SpecValue>, e: SpecValue)
    ensures
        encode_items(es.push(e)) == encode_items(es) + encode_ordered(e),
    decreases es.len(),
{
    if es.len() == 0 {
        let t = es.push(e);
        assert(t[0] == e);
        assert(t.drop_first() =~= Seq::<SpecValue>::empty());
        assert(encode_items(t.drop_first()) == Seq::<u8>::empty());
        assert(encode_items(es) == Seq::<u8>::empty());
        assert(encode_items(t) =~= encode_items(es) + encode_ordered(e));
    } else {
        lemma_encode_items_push(es.drop_first(), e);
        assert(es.push(e).drop_first() =~= es.drop_first().push(e));
        assert(encode_items(es.push(e)) =~= encode_items(es) + encode_ordered(e));
    }
}

/// Entries `es` viewed through the index permutation `idx`.
pub open spec fn permuted<T>(es: Seq<T>, idx: Seq<usize>) -> Seq<T> {
    idx.map_values(|i: usize| es[i as int])
}

/// Inserts index `k` into the index list `r`, stably by the keys of `es`.
fn insert_index(es: &Vec<(u64, Value)>, r: &mut Vec<usize>, k: usize)
    requires
        k < es@.len(),
        forall|j: int| 0 <= j < old(r)@.len() ==> #[trigger] old(r)@[j] < es@.len(),
    ensures
        forall|j: int| 0 <= j < final(r)@.len() ==> #[trigger] final(r)@[j] < es@.len(),
        permuted(es@, final(r)@) == insert_by_key(permuted(es@, old(r)@), es@[k as int]),
    decreases old(r)@.len(),
{
    let ghost s = permuted(es@, r@);
    match r.pop() {
        None => {
            r.push(k);
            assert(permuted(es@, r@) =~= seq![es@[k as int]]);
        },
        Some(last) => {
            assert(r@ =~= old(r)@.drop_last());
            assert(permuted(es@, r@) =~= s.drop_last());
            assert(s.last() == es@[last as int]);
            if es[last].0 <= es[k].0 {
                r.push(last);
                r.push(k);
                assert(permuted(es@, r@) =~= s.push(es@[k as int]));
            } else {
                insert_index(es, r, k);
                let ghost t = permuted(es@, r@);
                r.push(last);
                assert(permuted(es@, r@) =~= t.push(s.last()));
            }
        },
    }
}

/// Indices of `es` in stable key order.
fn sorted_indices(es: &Vec<(u64, Value)>) -> (r: Vec<usize>)
    ensures
        forall|j: int| 0 <= j < r@.len() ==> #[trigger] r@[j] < es@.len(),
        permuted(es@, r@) == sort_by_key(es@),
{
    let mut r: Vec<usize> = Vec::new();
    let mut i: usize = 0;
    while i < es.len()
        invariant
            i <= es@.len(),
            forall|j: int| 0 <= j < r@.len() ==> #[trigger] r@[j] < es@.len(),
            permuted(es@, r@) == sort_by_key(es@.subrange(0, i as int)),
        decreases es@.len() - i,
    {
        insert_index(es, &mut r, i);
        assert(es@.subrange(0, i + 1).drop_last() =~= es@.subrange(0, i as int));
        i = i + 1;
    }
    assert(es@.subrange(0, i as int) =~= es@);
    r
}

proof fn lemma_normal_sorted_entries(es: Seq<(u64, Value)>)
    ensures
        sort_by_key(normalize_entries(entries_model(es)))
            == map_entry_values(sort_by_key(es), |v: Value| normalize(v.model())),
{
    let m = entries_model(es);
    lemma_entries_model_map(es);
    lemma_normalize_entries_map(m);
    let f = |v: Value| v.model();
    let g = |v: SpecValue| normalize(v);
    let h = |v: Value| normalize(v.model());
    assert(map_entry_values(map_entry_values(es, f), g) =~= map_entry_values(es, h));
    lemma_sort_map(es, h);
}

/// Appends the deterministic encoding of the map with entries `entries`
/// (sorted by key, stably, on the way out).
pub fn encode_map(buf: &mut Vec<u8>, entries: &Vec<(u64, Value)>)
    ensures
        final(buf)@ == old(buf)@ + spec_encode_value(SpecValue::Mapping(entries_model(entries@))),
    decreases entries, 0nat,
{
    let idx = sorted_indices(entries);
    let ghost sorted = map_entry_values(sort_by_key(entries@), |w: Value| normalize(w.model()));
    proof {
        lemma_normal_sorted_entries(entries@);
        lemma_sort_len(entries@);
    }
    encode_uint_head(buf, MAJOR_MAP, idx.len() as u64);
    let ghost start = buf@;
    let mut j: usize = 0;
    while j < idx.len()
        invariant
            j <= idx@.len(),
            idx@.len() == entries@.len(),
            forall|t: int| 0 <= t < idx@.len() ==> #[trigger] idx@[t] < entries@.len(),
            permuted(entries@, idx@) == sort_by_key(entries@),
            sorted == map_entry_values(sort_by_key(entries@), |w: Value| normalize(w.model())),
            buf@ == start + encode_entries(sorted.subrange(0, j as int)),
        decreases idx@.len() - j,
    {
        let k = idx[j];
        let e: &(u64, Value) = &entries[k];
        assert(sorted[j as int] == (e.0, normalize(e.1.model())));
        encode_uint(buf, e.0);
        proof {
            assert(decreases_to!(*entries => entries[k as int]));
            assert(decreases_to!(entries[k as int] => entries[k as int].1));
        }
        encode_value(buf, &e.1);
        proof {
            lemma_encode_entries_push(sorted.subrange(0, j as int), sorted[j as int]);
            assert(sorted.subrange(0, j + 1) =~= sorted.subrange(0, j as int).push(sorted[j as int]));
        }
        j = j + 1;
    }
    assert(sorted.subrange(0, j as int) =~= sorted);
    assert(final(buf)@ =~= old(buf)@ + spec_encode_value(SpecValue::Mapping(entries_model(entries@))));
}

/// Appends the deterministic encoding of `v`.
pub fn encode_value(buf: &mut Vec<u8>, v: &Value)
    ensures
        final(buf)@ == old(buf)@ + spec_encode_value(v.model()),
    decreases v, 0nat,
{
    match v {
        Value::Uint(n) => encode_uint(buf, *n),
        Value::Bstr(b) => encode_bstr(buf, b.as_slice()),
        Value::Mapping(entries) => {
            proof {
                assert((*v)->Mapping_0 == *entries);
                assert(decreases_to!(*v => (*v)->Mapping_0));
            }
            encode_map(buf, entries);
        },
        Value::Array(items) => {
            encode_uint_head(buf, MAJOR_ARRAY, items.len() as u64);
            let ghost start = buf@;
            let ghost norm = normalize_items(items_model(items@));
            proof {
                lemma_items_model_index(items@);
                lemma_normalize_items_index(items_model(items@));
            }
            let mut j: usize = 0;
            while j < items.len()
                invariant
                    j <= items@.len(),
                    *v == Value::Array(*items),
                    norm == normalize_items(items_model(items@)),
                    norm.len() == items@.len(),
                    forall|t: int| 0 <= t < items@.len() ==> #[trigger] norm[t] == normalize(items@[t].model()),
                    buf@ == start + encode_items(norm.subrange(0, j as int)),
                decreases items@.len() - j,
            {
                let it: &Value = &items[j];
                proof {
                    assert(decreases_to!(*items => items[j as int]));
                    assert((*v)->Array_0 == *items);
                    assert(decreases_to!(*v => (*v)->Array_0));
                }
                encode_value(buf, it);
                proof {
                    lemma_encode_items_push(norm.subrange(0, j as int), norm[j as int]);
                    assert(norm.subrange(0, j + 1) =~= norm.subrange(0, j as int).push(norm[j as int]));
                }
                j = j + 1;
            }
            assert(norm.subrange(0, j as int) =~= norm);
            assert(final(buf)@ =~= old(buf)@ + spec_encode_value(v.model()));
        },
    }
}


// ---------------------------------------------------------------------
// Decoding extension maps

/// Termination measure of decoding at nesting depth `depth`.
pub open spec fn decode_measure(depth: u32) -> nat {
    if depth <= 66 { (66 - depth) as nat } else { 0 }
}

/// Decoding of a map of extension values at `off`, at nesting depth `depth`.
pub open spec fn spec_decode_map_value(data: Seq<u8>, off: int, depth: u32)
    -> core::result::Result<(Seq<(u64, SpecValue)>, int), ErrorKind>
    decreases decode_measure(depth), 1nat, 0nat,
{
    if depth > 64 {
        Err(ErrorKind::Decode)
    } else {
        match spec_decode_head(data, off, 5) {
            None => Err(ErrorKind::Decode),
            Some((n, o)) => if n > MAX_MAP_ENTRIES {
                Err(ErrorKind::Decode)
            } else {
                spec_decode_entries(data, o, depth, n as nat, Seq::empty())
            },
        }
    }
}

/// Decoding of `n` more map entries at `off`, after the entries `acc`.
pub open spec fn spec_decode_entries(
    data: Seq<u8>,
    off: int,
    depth: u32,
    n: nat,
    acc: Seq<(u64, SpecValue)>,
) -> core::result::Result<(Seq<(u64, SpecValue)>, int), ErrorKind>
    decreases decode_measure(depth), 0nat, n,
{
    if depth > 64 {
        Err(ErrorKind::Decode)
    } else if n == 0 {
        Ok((acc, off))
    } else {
        match spec_decode_head(data, off, 0) {
            None => Err(ErrorKind::Decode),
            Some((key, o)) => match spec_decode_any_value(data, o, (depth + 1) as u32) {
                Err(e) => Err(e),
                Ok((v, o2)) => spec_decode_entries(data, o2, depth, (n - 1) as nat, acc.push((key, v))),
            },
        }
    }
}

/// Decoding of an array of extension values at `off`, at nesting depth `depth`.
pub open spec fn spec_decode_array_value(data: Seq<u8>, off: int, depth: u32)
    -> core::result::Result<(Seq<SpecValue>, int), ErrorKind>
    decreases decode_measure(depth), 1nat, 0nat,
{
    if depth > 64 {
        Err(ErrorKind::Decode)
    } else {
        match spec_decode_head(data, off, 4) {
            None => Err(ErrorKind::Decode),
            Some((n, o)) => if n > MAX_MAP_ENTRIES {
                Err(ErrorKind::Decode)
            } else {
                spec_decode_items(data, o, depth, n as nat, Seq::empty())
            },
        }
    }
}

/// Decoding of `n` more array items at `off`, after the items `acc`.
pub open spec fn spec_decode_items(
    data: Seq<u8>,
    off: int,
    depth: u32,
    n: nat,
    acc: Seq<SpecValue>,
) -> core::result::Result<(Seq<SpecValue>, int), ErrorKind>
    decreases decode_measure(depth), 0nat, n,
{
    if depth > 64 {
        Err(ErrorKind::Decode)
    } else if n == 0 {
        Ok((acc, off))
    } else {
        match spec_decode_any_value(data, off, (depth + 1) as u32) {
            Err(e) => Err(e),
            Ok((v, o2)) => spec_decode_items(data, o2, depth, (n - 1) as nat, acc.push(v)),
        }
    }
}

/// Decoding of one extension value at `off`, at nesting depth `depth`:
/// unsigned integers, byte strings, maps and arrays.
pub open spec fn spec_decode_any_value(data: Seq<u8>, off: int, depth: u32)
    -> core::result::Result<(SpecValue, int), ErrorKind>
    decreases decode_measure(depth), 2nat, 0nat,
{
    if off < 0 || off >= data.len() || depth > 64 {
        Err(ErrorKind::Decode)
    } else {
        let major = data[off] / 32;
        if major == 0 {
            match spec_decode_head(data, off, 0) {
                None => Err(ErrorKind::Decode),
                Some((v, o)) => Ok((SpecValue::Uint(v), o)),
            }
        } else if major == 2 {
            match spec_decode_string(data, off, 2) {
                None => Err(ErrorKind::Decode),
                Some((b, o)) => Ok((SpecValue::Bstr(b), o)),
            }
        } else if major == 5 {
            match spec_decode_map_value(data, off, (depth + 1) as u32) {
                Err(e) => Err(e),
                Ok((es, o)) => Ok((SpecValue::Mapping(es), o)),
            }
        } else if major == 4 {
            match spec_decode_array_value(data, off, (depth + 1) as u32) {
                Err(e) => Err(e),
                Ok((items, o)) => Ok((SpecValue::Array(items), o)),
            }
        } else if major == 6 {
            Err(ErrorKind::NonCanonicalEncoding)
        } else {
            Err(ErrorKind::Decode)
        }
    }
}

/// The message of a map of extension values that cannot be read at `off`,
/// at nesting depth `depth`.
pub open spec fn map_value_error_text(data: Seq<u8>, off: int, depth: u32) -> Seq<char>
    decreases decode_measure(depth), 1nat, 0nat,
{
    if depth > 64 {
        "nesting depth exceeded"@
    } else {
        match spec_decode_head(data, off, 5) {
            None => head_error_text(data, off, 5),
            Some((n, o)) => if n > MAX_MAP_ENTRIES {
                "length exceeds maximum"@
            } else {
                entries_error_text(data, o, depth, n as nat)
            },
        }
    }
}

/// The message of the first of `n` map entries at `off` that cannot be read.
pub open spec fn entries_error_text(data: Seq<u8>, off: int, depth: u32, n: nat) -> Seq<char>
    decreases decode_measure(depth), 0nat, n,
{
    if depth > 64 {
        "nesting depth exceeded"@
    } else if n == 0 {
        Seq::empty()
    } else {
        match spec_decode_head(data, off, 0) {
            None => head_error_text(data, off, 0),
            Some((key, o)) => match spec_decode_any_value(data, o, (depth + 1) as u32) {
                Err(_) => any_value_error_text(data, o, (depth + 1) as u32),
                Ok((v, o2)) => entries_error_text(data, o2, depth, (n - 1) as nat),
            },
        }
    }
}

/// The message of an array of extension values that cannot be read at
/// `off`, at nesting depth `depth`.
pub open spec fn array_value_error_text(data: Seq<u8>, off: int, depth: u32) -> Seq<char>
    decreases decode_measure(depth), 1nat, 0nat,
{
    if depth > 64 {
        "nesting depth exceeded"@
    } else {
        match spec_decode_head(data, off, 4) {
            None => head_error_text(data, off, 4),
            Some((n, o)) => if n > MAX_MAP_ENTRIES {
                "length exceeds maximum"@
            } else {
                items_error_text(data, o, depth, n as nat)
            },
        }
    }
}

/// The message of the first of `n` array items at `off` that cannot be read.
pub open spec fn items_error_text(data: Seq<u8>, off: int, depth: u32, n: nat) -> Seq<char>
    decreases decode_measure(depth), 0nat, n,
{
    if depth > 64 {
        "nesting depth exceeded"@
    } else if n == 0 {
        Seq::empty()
    } else {
        match spec_decode_any_value(data, off, (depth + 1) as u32) {
            Err(_) => any_value_error_text(data, off, (depth + 1) as u32),
            Ok((v, o2)) => items_error_text(data, o2, depth, (n - 1) as nat),
        }
    }
}

/// The message of an extension value that cannot be read at `off`, at
/// nesting depth `depth`.
pub open spec fn any_value_error_text(data: Seq<u8>, off: int, depth: u32) -> Seq<char>
    decreases decode_measure(depth), 2nat, 0nat,
{
    if off < 0 || off >= data.len() {
        "unexpected end of value"@
    } else if depth > 64 {
        "nesting depth exceeded"@
    } else {
        let major = data[off] / 32;
        if major == 0 {
            head_error_text(data, off, 0)
        } else if major == 2 {
            string_error_text(data, off, 2)
        } else if major == 5 {
            map_value_error_text(data, off, (depth + 1) as u32)
        } else if major == 4 {
            array_value_error_text(data, off, (depth + 1) as u32)
        } else if major == 6 {
            Seq::empty()
        } else if major == 7 {
            "floats, null and undefined not allowed"@
        } else {
            "unexpected major type in payload"@
        }
    }
}

proof fn lemma_entries_model_push(es: Seq<(u64, Value)>, e: (u64, Value))
    ensures entries_model(es.push(e)) == entries_model(es).push((e.0, e.1.model())),
{
    assert(es.push(e).drop_last() =~= es);
}

/// Reads a map of extension values at nesting depth `depth`.
pub fn decode_map_value_depth(data: &[u8], offset: &mut usize, depth: u32) -> (r: Result<Vec<(u64, Value)>>)
    ensures
        match spec_decode_map_value(data@, *old(offset) as int, depth) {
            Ok((es, n)) => r matches Ok(v) && entries_model(v@) == es && *final(offset) == n,
            Err(k) => r matches Err(e) && e.kind() == k
                && error_message(e) == map_value_error_text(data@, *old(offset) as int, depth),
        },
    decreases decode_measure(depth), 1nat,
{
    if depth > MAX_CBOR_DEPTH {
        return Err(decode_error("nesting depth exceeded"));
    }
    let raw = decode_map_len(data, offset)?;
    let len = bounded_usize(raw, MAX_MAP_ENTRIES)?;
    let mut entries: Vec<(u64, Value)> = Vec::new();
    let next = depth + 1;
    let mut i: usize = 0;
    let ghost o1 = *offset as int;
    assert(entries_model(entries@) =~= Seq::<(u64, SpecValue)>::empty());
    while i < len
        invariant
            i <= len,
            len == raw,
            depth <= 64,
            next == depth + 1,
            spec_decode_map_value(data@, *old(offset) as int, depth)
                == spec_decode_entries(data@, o1, depth, len as nat, Seq::empty()),
            spec_decode_entries(data@, o1, depth, len as nat, Seq::empty())
                == spec_decode_entries(data@, *offset as int, depth, (len - i) as nat, entries_model(entries@)),
            map_value_error_text(data@, *old(offset) as int, depth)
                == entries_error_text(data@, *offset as int, depth, (len - i) as nat),
        decreases len - i,
    {
        let key = decode_uint(data, offset)?;
        let val = decode_any_value_depth(data, offset, next)?;
        proof {
            lemma_entries_model_push(entries@, (key, val));
        }
        entries.push((key, val));
        i = i + 1;
    }
    Ok(entries)
}

proof fn lemma_items_model_push(es: Seq<Value>, e: Value)
    ensures items_model(es.push(e)) == items_model(es).push(e.model()),
{
    assert(es.push(e).drop_last() =~= es);
}

/// Reads an array of extension values at nesting depth `depth`.
fn decode_array_value_depth(data: &[u8], offset: &mut usize, depth: u32) -> (r: Result<Vec<Value>>)
    ensures
        match spec_decode_array_value(data@, *old(offset) as int, depth) {
            Ok((items, n)) => r matches Ok(v) && items_model(v@) == items && *final(offset) == n,
            Err(k) => r matches Err(e) && e.kind() == k
                && error_message(e) == array_value_error_text(data@, *old(offset) as int, depth),
        },
    decreases decode_measure(depth), 1nat,
{
    if depth > MAX_CBOR_DEPTH {
        return Err(decode_error("nesting depth exceeded"));
    }
    let raw = decode_array_len(data, offset)?;
    let len = bounded_usize(raw, MAX_MAP_ENTRIES)?;
    let mut items: Vec<Value> = Vec::new();
    let next = depth + 1;
    let mut i: usize = 0;
    let ghost o1 = *offset as int;
    assert(items_model(items@) =~= Seq::<SpecValue>::empty());
    while i < len
        invariant
            i <= len,
            len == raw,
            depth <= 64,
            next == depth + 1,
            spec_decode_array_value(data@, *old(offset) as int, depth)
                == spec_decode_items(data@, o1, depth, len as nat, Seq::empty()),
            spec_decode_items(data@, o1, depth, len as nat, Seq::empty())
                == spec_decode_items(data@, *offset as int, depth, (len - i) as nat, items_model(items@)),
            array_value_error_text(data@, *old(offset) as int, depth)
                == items_error_text(data@, *offset as int, depth, (len - i) as nat),
        decreases len - i,
    {
        let val = decode_any_value_depth(data, offset, next)?;
        proof {
            lemma_items_model_push(items@, val);
        }
        items.push(val);
        i = i + 1;
    }
    Ok(items)
}

/// Reads one extension value at nesting depth `depth`.
fn decode_any_value_depth(data: &[u8], offset: &mut usize, depth: u32) -> (r: Result<Value>)
    ensures
        match spec_decode_any_value(data@, *old(offset) as int, depth) {
            Ok((v, n)) => r matches Ok(x) && x.model() == v && *final(offset) == n,
            Err(k) => r matches Err(e) && e.kind() == k
                && error_message(e) == any_value_error_text(data@, *old(offset) as int, depth),
        },
    decreases decode_measure(depth), 2nat,
{
    if *offset >= data.len() {
        return Err(decode_error("unexpected end of value"));
    }
    if depth > MAX_CBOR_DEPTH {
        return Err(decode_error("nesting depth exceeded"));
    }
    let byte = data[*offset];
    let major = byte / 32;
    if major == 0 {
        let v = decode_uint(data, offset)?;
        Ok(Value::Uint(v))
    } else if major == 2 {
        let b = decode_bstr(data, offset)?;
        Ok(Value::Bstr(b))
    } else if major == 5 {
        let es = decode_map_value_depth(data, offset, depth + 1)?;
        Ok(Value::Mapping(es))
    } else if major == 4 {
        let items = decode_array_value_depth(data, offset, depth + 1)?;
        Ok(Value::Array(items))
    } else if major == 6 {
        Err(Error::NonCanonicalEncoding)
    } else if major == 7 {
        Err(decode_error("floats, null and undefined not allowed"))
    } else {
        Err(decode_error("unexpected major type in payload"))
    }
}

/// Reads the extension map of a payload.
pub fn decode_map_value(data: &[u8], offset: &mut usize) -> (r: Result<Vec<(u64, Value)>>)
    ensures
        match spec_decode_map_value(data@, *old(offset) as int, 0) {
            Ok((es, n)) => r matches Ok(v) && entries_model(v@) == es && *final(offset) == n,
            Err(k) => r matches Err(e) && e.kind() == k
                && error_message(e) == map_value_error_text(data@, *old(offset) as int, 0),
        },
{
    decode_map_value_depth(data, offset, 0)
}


// ---------------------------------------------------------------------
// Decoding what was encoded

/// Values that the extension decoder reads back, when found at nesting
/// depth `depth`: strings, maps and arrays within the decoder's size
/// limits, and nesting within its depth limit.
pub open spec fn value_decodable(v: SpecValue, depth: u32) -> bool
    decreases v,
{
    depth <= 64 && match v {
        SpecValue::Uint(_) => true,
        SpecValue::Bstr(b) => b.len() <= MAX_BSTR_LENGTH,
        SpecValue::Mapping(es) => depth < 64 && es.len() <= MAX_MAP_ENTRIES && forall|i: int|
            0 <= i < es.len() ==> value_decodable(#[trigger] es[i].1, (depth + 2) as u32),
        SpecValue::Array(items) => depth < 64 && items.len() <= MAX_MAP_ENTRIES && forall|i: int|
            0 <= i < items.len() ==> value_decodable(#[trigger] items[i], (depth + 2) as u32),
    }
}

proof fn lemma_value_roundtrip(data: Seq<u8>, off: int, v: SpecValue, depth: u32)
    requires
        value_decodable(v, depth),
        0 <= off,
        off + encode_ordered(v).len() <= data.len(),
        data.subrange(off, off + encode_ordered(v).len()) == encode_ordered(v),
    ensures
        spec_decode_any_value(data, off, depth) == Ok::<(SpecValue, int), ErrorKind>((v, off + encode_ordered(v).len())),
    decreases v,
{
    match v {
        SpecValue::Uint(n) => {
            lemma_head_roundtrip(data, off, MAJOR_UINT, n);
        },
        SpecValue::Bstr(b) => {
            lemma_bstr_roundtrip(data, off, b, 2);
        },
        SpecValue::Mapping(es) => {
            let h = spec_encode_head(MAJOR_MAP, es.len() as u64);
            let body = encode_entries(es);
            lemma_split(data, off, h, body);
            lemma_head_roundtrip(data, off, MAJOR_MAP, es.len() as u64);
            lemma_entries_roundtrip(data, off + h.len(), es, (depth + 1) as u32, Seq::empty());
            assert(Seq::<(u64, SpecValue)>::empty() + es =~= es);
        },
        SpecValue::Array(items) => {
            let h = spec_encode_head(MAJOR_ARRAY, items.len() as u64);
            let body = encode_items(items);
            lemma_split(data, off, h, body);
            lemma_head_roundtrip(data, off, MAJOR_ARRAY, items.len() as u64);
            lemma_items_roundtrip(data, off + h.len(), items, (depth + 1) as u32, Seq::empty());
            assert(Seq::<SpecValue>::empty() + items =~= items);
        },
    }
}

proof fn lemma_items_roundtrip(
    data: Seq<u8>,
    off: int,
    es: Seq<SpecValue>,
    depth: u32,
    acc: Seq<SpecValue>,
)
    requires
        depth <= 64,
        forall|i: int| 0 <= i < es.len() ==> value_decodable(#[trigger] es[i], (depth + 1) as u32),
        0 <= off,
        off + encode_items(es).len() <= data.len(),
        data.subrange(off, off + encode_items(es).len()) == encode_items(es),
    ensures
        spec_decode_items(data, off, depth, es.len(), acc)
            == Ok::<(Seq<SpecValue>, int), ErrorKind>((acc + es, off + encode_items(es).len())),
    decreases es,
{
    if es.len() == 0 {
        assert(acc + es =~= acc);
    } else {
        let ev = encode_ordered(es[0]);
        let rest = encode_items(es.drop_first());
        assert(encode_items(es) == ev + rest);
        lemma_split(data, off, ev, rest);
        assert(value_decodable(es[0], (depth + 1) as u32));
        lemma_value_roundtrip(data, off, es[0], (depth + 1) as u32);
        assert forall|i: int| 0 <= i < es.drop_first().len() implies
            value_decodable(#[trigger] es.drop_first()[i], (depth + 1) as u32) by {
            assert(es.drop_first()[i] == es[i + 1]);
        }
        lemma_items_roundtrip(data, off + ev.len(), es.drop_first(), depth, acc.push(es[0]));
        assert(acc.push(es[0]) + es.drop_first() =~= acc + es);
    }
}

proof fn lemma_entries_roundtrip(
    data: Seq<u8>,
    off: int,
    es: Seq<(u64, SpecValue)>,
    depth: u32,
    acc: Seq<(u64, SpecValue)>,
)
    requires
        depth <= 64,
        forall|i: int| 0 <= i < es.len() ==> value_decodable(#[trigger] es[i].1, (depth + 1) as u32),
        0 <= off,
        off + encode_entries(es).len() <= data.len(),
        data.subrange(off, off + encode_entries(es).len()) == encode_entries(es),
    ensures
        spec_decode_entries(data, off, depth, es.len(), acc)
            == Ok::<(Seq<(u64, SpecValue)>, int), ErrorKind>((acc + es, off + encode_entries(es).len())),
    decreases es,
{
    if es.len() == 0 {
        assert(acc + es =~= acc);
    } else {
        let h = spec_encode_head(MAJOR_UINT, es[0].0);
        let ev = encode_ordered(es[0].1);
        let rest = encode_entries(es.drop_first());
        assert(encode_entries(es) == h + ev + rest);
        lemma_split(data, off, h + ev, rest);
        lemma_split(data, off, h, ev);
        lemma_head_roundtrip(data, off, MAJOR_UINT, es[0].0);
        assert(value_decodable(es[0].1, (depth + 1) as u32));
        lemma_value_roundtrip(data, off + h.len(), es[0].1, (depth + 1) as u32);
        assert forall|i: int| 0 <= i < es.drop_first().len() implies
            value_decodable(#[trigger] es.drop_first()[i].1, (depth + 1) as u32) by {
            assert(es.drop_first()[i] == es[i + 1]);
        }
        lemma_entries_roundtrip(data, off + h.len() + ev.len(), es.drop_first(), depth, acc.push(es[0]));
        assert(acc.push(es[0]) + es.drop_first() =~= acc + es);
    }
}

/// Entries that the extension decoder reads back as a top-level
/// extension map.
pub open spec fn extensions_decodable(es: Seq<(u64, SpecValue)>) -> bool {
    es.len() <= MAX_MAP_ENTRIES && forall|i: int| 0 <= i < es.len() ==> value_decodable(#[trigger] es[i].1, 1)
}

/// A map of extension values decodes to the entries it was encoded from,
/// whatever follows it.
pub proof fn lemma_map_value_roundtrip(data: Seq<u8>, off: int, es: Seq<(u64, SpecValue)>)
    requires
        extensions_decodable(es),
        0 <= off,
        off + encode_ordered(SpecValue::Mapping(es)).len() <= data.len(),
        data.subrange(off, off + encode_ordered(SpecValue::Mapping(es)).len()) == encode_ordered(SpecValue::Mapping(es)),
    ensures
        spec_decode_map_value(data, off, 0)
            == Ok::<(Seq<(u64, SpecValue)>, int), ErrorKind>((es, off + encode_ordered(SpecValue::Mapping(es)).len())),
{
    let h = spec_encode_head(MAJOR_MAP, es.len() as u64);
    let body = encode_entries(es);
    lemma_split(data, off, h, body);
    lemma_head_roundtrip(data, off, MAJOR_MAP, es.len() as u64);
    lemma_entries_roundtrip(data, off + h.len(), es, 0, Seq::empty());
    assert(Seq::<(u64, SpecValue)>::empty() + es =~= es);
}

/// Every entry of the sorted sequence is an entry of the original.
pub proof fn lemma_sort_members<V>(s: Seq<(u64, V)>)
    ensures
        forall|j: int| 0 <= j < sort_by_key(s).len() ==> s.contains(#[trigger] sort_by_key(s)[j]),
    decreases s.len(),
{
    if s.len() > 0 {
        let d = s.drop_last();
        lemma_sort_members(d);
        lemma_sort_sorted(d);
        lemma_insert_sorted(sort_by_key(d), s.last());
        let t = sort_by_key(d);
        assert forall|j: int| 0 <= j < sort_by_key(s).len() implies s.contains(#[trigger] sort_by_key(s)[j]) by {
            let x = sort_by_key(s)[j];
            if x == s.last() {
                assert(s[s.len() - 1] == x);
            } else {
                assert(t.contains(x));
                let k = choose|k: int| 0 <= k < t.len() && t[k] == x;
                assert(d.contains(t[k]));
                let m = choose|m: int| 0 <= m < d.len() && d[m] == x;
                assert(s[m] == x);
            }
        }
    }
}

/// Normal forms of decodable values stay decodable.
pub proof fn lemma_normalize_decodable(v: SpecValue, d: u32)
    requires
        value_decodable(v, d),
    ensures
        value_decodable(normalize(v), d),
    decreases v,
{
    match v {
        SpecValue::Mapping(es) => {
            let n = normalize_entries(es);
            lemma_normalize_entries_map(es);
            lemma_sort_len(n);
            lemma_sort_members(n);
            let s = sort_by_key(n);
            assert forall|i: int| 0 <= i < s.len() implies value_decodable(#[trigger] s[i].1, (d + 2) as u32) by {
                let m = choose|m: int| 0 <= m < n.len() && n[m] == s[i];
                assert(n[m] == (es[m].0, normalize(es[m].1)));
                lemma_normalize_decodable(es[m].1, (d + 2) as u32);
            }
        },
        SpecValue::Array(items) => {
            lemma_normalize_items_index(items);
            let n = normalize_items(items);
            assert forall|i: int| 0 <= i < n.len() implies value_decodable(#[trigger] n[i], (d + 2) as u32) by {
                lemma_normalize_decodable(items[i], (d + 2) as u32);
            }
        },
        _ => {},
    }
}

/// Normal forms of decodable extension entries stay decodable.
pub proof fn lemma_normalize_extensions_decodable(es: Seq<(u64, SpecValue)>)
    requires
        extensions_decodable(es),
    ensures
        extensions_decodable(sort_by_key(normalize_entries(es))),
{
    let n = normalize_entries(es);
    lemma_normalize_entries_map(es);
    lemma_sort_len(n);
    lemma_sort_members(n);
    let s = sort_by_key(n);
    assert forall|i: int| 0 <= i < s.len() implies value_decodable(#[trigger] s[i].1, 1) by {
        let m = choose|m: int| 0 <= m < n.len() && n[m] == s[i];
        assert(n[m] == (es[m].0, normalize(es[m].1)));
        lemma_normalize_decodable(es[m].1, 1);
    }
}

/// A value decodable deep in the tree is decodable higher up.
pub proof fn lemma_decodable_shallower(v: SpecValue, d: u32, e: u32)
    requires
        value_decodable(v, d),
        e <= d,
    ensures
        value_decodable(v, e),
    decreases v,
{
    match v {
        SpecValue::Mapping(es) => {
            assert forall|i: int| 0 <= i < es.len() implies value_decodable(#[trigger] es[i].1, (e + 2) as u32) by {
                lemma_decodable_shallower(es[i].1, (d + 2) as u32, (e + 2) as u32);
            }
        },
        SpecValue::Array(items) => {
            assert forall|i: int| 0 <= i < items.len() implies value_decodable(#[trigger] items[i], (e + 2) as u32) by {
                lemma_decodable_shallower(items[i], (d + 2) as u32, (e + 2) as u32);
            }
        },
        _ => {},
    }
}


/// The normal form of a value is its own normal form.
pub proof fn lemma_normalize_idempotent(v: SpecValue)
    ensures
        normalize(normalize(v)) == normalize(v),
    decreases v,
{
    match v {
        SpecValue::Mapping(es) => {
            let n = normalize_entries(es);
            let s = sort_by_key(n);
            lemma_normalize_entries_map(es);
            lemma_sort_members(n);
            lemma_sort_len(n);
            assert forall|i: int| 0 <= i < s.len() implies normalize(#[trigger] s[i].1) == s[i].1 by {
                let m = choose|m: int| 0 <= m < n.len() && n[m] == s[i];
                assert(n[m] == (es[m].0, normalize(es[m].1)));
                lemma_normalize_idempotent(es[m].1);
            }
            lemma_normalize_entries_map(s);
            assert(normalize_entries(s) =~= s);
            lemma_sort_sorted(n);
            lemma_sort_sorted_identity(s);
        },
        SpecValue::Array(items) => {
            lemma_normalize_items_index(items);
            let n = normalize_items(items);
            lemma_normalize_items_index(n);
            assert forall|i: int| 0 <= i < n.len() implies normalize(#[trigger] n[i]) == n[i] by {
                lemma_normalize_idempotent(items[i]);
            }
            assert(normalize_items(n) =~= n);
        },
        _ => {},
    }
}

} // verus!
