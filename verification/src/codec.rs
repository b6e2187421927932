//! The header codec: the exact byte layout of a serialized container.
//!
//! A container is `[8-byte little-endian header length][compact JSON
//! header][payload]`. The header object holds, under the reserved key
//! `__metadata__`, the optional caller metadata (omitted entirely when no
//! metadata was given), followed by one entry per tensor, in strict
//! lexicographic order of the UTF-8 bytes of the names. Each tensor entry
//! is `{"dtype":...,"shape":[...],"data_offsets":[begin,end)}` with offsets
//! relative to the start of the payload. The payload is the tensor buffers
//! concatenated in the same order, with no padding and no trailing bytes.
//!
//! Every spec function here defines the output down to the byte, and
//! [`serialize`] is proved to produce exactly those bytes.

use vstd::prelude::*;
use vstd::utf8::encode_utf8;
use crate::error::SafeTensorError;
use crate::json::{
    dec_digits,
    quoted,
    dtype_name_bytes,
    le8,
    emit_dec,
    emit_quoted,
    emit_dtype_name,
    emit_le8,
};
use crate::order::{
    lex_lt,
    sorted_strict,
    map_of,
    canon,
    spec_insert,
    lemma_insert_sorted,
    lemma_insert_shape,
    lemma_canon,
    lemma_sorted_canonical,
    key_lt,
    key_eq,
};
use crate::set::{PairStrTensorView, all_valid, fails_at, pairs_model, prepare};
use crate::view::{TensorView, TvModel};

verus! {

/// A metadata entry, as the caller hands it in.
pub struct PairStrStr {
    /// The metadata key.
    pub key: String,
    /// The metadata value.
    pub value: String,
}

/// A named tensor entry, abstracted: name bytes with the view's model.
pub type TEntry = (Seq<u8>, TvModel);

/// The model of a caller-supplied metadata list: each key and value as its
/// UTF-8 bytes.
pub open spec fn meta_pairs_model(s: Seq<PairStrStr>) -> Seq<(Seq<u8>, Seq<u8>)> {
    Seq::new(s.len(), |i: int| (encode_utf8(s[i].key@), encode_utf8(s[i].value@)))
}

/// A metadata entry vector, abstracted to byte sequences.
pub open spec fn meta_entries(s: Seq<(Vec<u8>, Vec<u8>)>) -> Seq<(Seq<u8>, Seq<u8>)> {
    Seq::new(s.len(), |i: int| (s[i].0@, s[i].1@))
}

/// The model of the optional metadata argument.
pub open spec fn meta_model_of(o: Option<Vec<PairStrStr>>) -> Option<Seq<(Seq<u8>, Seq<u8>)>> {
    match o {
        None => None,
        Some(v) => Some(meta_pairs_model(v@)),
    }
}

/// Total byte length of the payload of an entry sequence.
pub open spec fn sum_lens(s: Seq<TEntry>) -> nat
    decreases s.len(),
{
    if s.len() == 0 {
        0
    } else {
        sum_lens(s.drop_last()) + s.last().1.2.len()
    }
}

/// The payload: the entries' buffers concatenated in sequence order.
pub open spec fn payload_bytes(s: Seq<TEntry>) -> Seq<u8>
    decreases s.len(),
{
    if s.len() == 0 {
        Seq::empty()
    } else {
        payload_bytes(s.drop_last()) + s.last().1.2
    }
}

/// Where entry `i`'s bytes begin within the payload.
pub open spec fn spec_begin(s: Seq<TEntry>, i: int) -> nat {
    sum_lens(s.take(i))
}

/// Where entry `i`'s bytes end within the payload (exclusive).
pub open spec fn spec_end(s: Seq<TEntry>, i: int) -> nat {
    spec_begin(s, i) + s[i].1.2.len()
}

/// The bytes of `"dtype":`.
pub open spec fn kw_dtype() -> Seq<u8> {
    seq![34u8, 100u8, 116u8, 121u8, 112u8, 101u8, 34u8, 58u8]
}

/// The bytes of `"shape":`.
pub open spec fn kw_shape() -> Seq<u8> {
    seq![34u8, 115u8, 104u8, 97u8, 112u8, 101u8, 34u8, 58u8]
}

/// The bytes of `"data_offsets":`.
pub open spec fn kw_offsets() -> Seq<u8> {
    seq![
        34u8,
        100u8,
        97u8,
        116u8,
        97u8,
        95u8,
        111u8,
        102u8,
        102u8,
        115u8,
        101u8,
        116u8,
        115u8,
        34u8,
        58u8,
    ]
}

/// The bytes of the reserved metadata key `__metadata__`.
pub open spec fn metadata_key() -> Seq<u8> {
    seq![95u8, 95u8, 109u8, 101u8, 116u8, 97u8, 100u8, 97u8, 116u8, 97u8, 95u8, 95u8]
}

/// The comma-separated decimal dimension list of a shape (no brackets).
pub open spec fn shape_items(dims: Seq<usize>) -> Seq<u8>
    decreases dims.len(),
{
    if dims.len() == 0 {
        Seq::empty()
    } else if dims.len() == 1 {
        dec_digits(dims[0] as nat)
    } else {
        shape_items(dims.drop_last()) + seq![44u8] + dec_digits(dims.last() as nat)
    }
}

/// One tensor's header entry, beginning at payload offset `begin`.
pub open spec fn entry_json(e: TEntry, begin: nat) -> Seq<u8> {
    quoted(e.0) + seq![58u8, 123u8] + kw_dtype() + seq![34u8] + dtype_name_bytes(e.1.0) + seq![
        34u8,
        44u8,
    ] + kw_shape() + seq![91u8] + shape_items(e.1.1) + seq![93u8, 44u8] + kw_offsets() + seq![91u8]
        + dec_digits(begin) + seq![44u8] + dec_digits(begin + e.1.2.len()) + seq![93u8, 125u8]
}

/// The first `i` tensor entries, comma-separated, each at its offset.
pub open spec fn tensors_items(s: Seq<TEntry>, i: int) -> Seq<u8>
    decreases i,
{
    if i <= 0 {
        Seq::empty()
    } else {
        tensors_items(s, i - 1) + (if i >= 2 {
            seq![44u8]
        } else {
            Seq::<u8>::empty()
        }) + entry_json(s[i - 1], spec_begin(s, i - 1))
    }
}

/// One metadata pair as `"key":"value"`.
pub open spec fn meta_item_json(e: (Seq<u8>, Seq<u8>)) -> Seq<u8> {
    quoted(e.0) + seq![58u8] + quoted(e.1)
}

/// The first `i` metadata pairs, comma-separated.
pub open spec fn meta_items(mm: Seq<(Seq<u8>, Seq<u8>)>, i: int) -> Seq<u8>
    decreases i,
{
    if i <= 0 {
        Seq::empty()
    } else {
        meta_items(mm, i - 1) + (if i >= 2 {
            seq![44u8]
        } else {
            Seq::<u8>::empty()
        }) + meta_item_json(mm[i - 1])
    }
}

/// The complete `"__metadata__":{...}` header member.
pub open spec fn meta_json(mm: Seq<(Seq<u8>, Seq<u8>)>) -> Seq<u8> {
    quoted(metadata_key()) + seq![58u8, 123u8] + meta_items(mm, mm.len() as int) + seq![125u8]
}

/// The complete JSON header for sorted metadata and sorted tensor entries.
pub open spec fn header_json(meta: Option<Seq<(Seq<u8>, Seq<u8>)>>, s: Seq<TEntry>) -> Seq<u8> {
    match meta {
        None => seq![123u8] + tensors_items(s, s.len() as int) + seq![125u8],
        Some(mm) => seq![123u8] + meta_json(mm) + (if s.len() > 0 {
            seq![44u8]
        } else {
            Seq::<u8>::empty()
        }) + tensors_items(s, s.len() as int) + seq![125u8],
    }
}

/// The complete container for already-sorted metadata and tensor entries.
pub open spec fn spec_serialized(meta: Option<Seq<(Seq<u8>, Seq<u8>)>>, s: Seq<TEntry>) -> Seq<
    u8,
> {
    le8(header_json(meta, s).len()) + header_json(meta, s) + payload_bytes(s)
}

/// The container for raw (unsorted, possibly duplicated) inputs: both the
/// tensor entries and the metadata are first brought into canonical sorted
/// order, so the output depends only on the mappings the inputs denote.
pub open spec fn spec_serialize(tm: Seq<TEntry>, meta: Option<Seq<(Seq<u8>, Seq<u8>)>>) -> Seq<
    u8,
> {
    spec_serialized(
        match meta {
            None => None,
            Some(mm) => Some(canon(mm)),
        },
        canon(tm),
    )
}

/// A prefix payload never exceeds the whole payload.
pub proof fn lemma_sum_prefix_le(s: Seq<TEntry>, i: int)
    requires
        0 <= i <= s.len(),
    ensures
        sum_lens(s.take(i)) <= sum_lens(s),
    decreases s.len() - i,
{
    if i == s.len() {
        assert(s.take(i) =~= s);
    } else {
        lemma_sum_prefix_le(s, i + 1);
        assert(s.take(i + 1).drop_last() =~= s.take(i));
        assert(s.take(i + 1).last() == s[i]);
    }
}

/// The payload's length is the sum of the entries' lengths.
pub proof fn lemma_payload_len(s: Seq<TEntry>)
    ensures
        payload_bytes(s).len() == sum_lens(s),
    decreases s.len(),
{
    if s.len() > 0 {
        lemma_payload_len(s.drop_last());
    }
}

/// The offsets of a serialized entry sequence partition the payload
/// contiguously: each entry ends exactly where the next begins, the last
/// entry ends at the payload's length, and the whole container is exactly
/// the 8-byte prefix plus the header plus that payload.
pub proof fn lemma_offset_contiguity(meta: Option<Seq<(Seq<u8>, Seq<u8>)>>, s: Seq<TEntry>)
    ensures
        forall|i: int| 0 <= i < s.len() - 1 ==> spec_end(s, i) == spec_begin(s, i + 1),
        s.len() > 0 ==> spec_end(s, s.len() - 1) == sum_lens(s),
        payload_bytes(s).len() == sum_lens(s),
        spec_serialized(meta, s).len() == 8 + header_json(meta, s).len() + sum_lens(s),
{
    lemma_payload_len(s);
    assert forall|i: int| 0 <= i < s.len() - 1 implies spec_end(s, i) == spec_begin(s, i + 1) by {
        assert(s.take(i + 1).drop_last() =~= s.take(i));
        assert(s.take(i + 1).last() == s[i]);
    }
    if s.len() > 0 {
        let n = s.len() as int;
        assert(s.take(n).drop_last() =~= s.take(n - 1));
        assert(s.take(n).last() == s[n - 1]);
        assert(s.take(n) =~= s);
    }
}

/// Each tensor's bytes are recoverable from the payload by slicing its
/// offsets back out: the payload between `begin` and `end` of entry `i` is
/// exactly that entry's buffer.
pub proof fn lemma_payload_slice(s: Seq<TEntry>, i: int)
    requires
        0 <= i < s.len(),
    ensures
        spec_end(s, i) <= payload_bytes(s).len(),
        payload_bytes(s).subrange(spec_begin(s, i) as int, spec_end(s, i) as int) == s[i].1.2,
    decreases s.len(),
{
    lemma_payload_len(s);
    assert(s.take(i + 1).drop_last() =~= s.take(i));
    assert(s.take(i + 1).last() == s[i]);
    lemma_sum_prefix_le(s, i + 1);
    let b = spec_begin(s, i) as int;
    let e = spec_end(s, i) as int;
    if i == s.len() - 1 {
        assert(s.take(i) =~= s.drop_last());
        lemma_payload_len(s.drop_last());
        assert(payload_bytes(s).subrange(b, e) =~= s[i].1.2);
    } else {
        let t = s.drop_last();
        assert(t.take(i) =~= s.take(i));
        assert(t.take(i + 1) =~= s.take(i + 1));
        assert(t[i] == s[i]);
        lemma_payload_slice(t, i);
        lemma_payload_len(t);
        lemma_sum_prefix_le(t, i + 1);
        assert(payload_bytes(s).subrange(b, e) =~= payload_bytes(t).subrange(b, e));
    }
}

/// Determinism: two inputs that denote the same name-to-tensor mapping and
/// the same metadata mapping (or both none) serialize to byte-identical
/// output, whatever order and duplication the caller supplied.
pub proof fn lemma_serialize_deterministic(
    t1: Seq<TEntry>,
    t2: Seq<TEntry>,
    m1: Option<Seq<(Seq<u8>, Seq<u8>)>>,
    m2: Option<Seq<(Seq<u8>, Seq<u8>)>>,
)
    requires
        map_of(t1) == map_of(t2),
        match (m1, m2) {
            (None, None) => true,
            (Some(a), Some(b)) => map_of(a) == map_of(b),
            _ => false,
        },
    ensures
        spec_serialize(t1, m1) == spec_serialize(t2, m2),
{
    lemma_canon(t1);
    lemma_canon(t2);
    lemma_sorted_canonical(canon(t1), canon(t2));
    match (m1, m2) {
        (Some(a), Some(b)) => {
            lemma_canon(a);
            lemma_canon(b);
            lemma_sorted_canonical(canon(a), canon(b));
        }
        _ => {}
    }
}

/// Inserts one metadata entry into a key-sorted vector, keeping it sorted;
/// an entry with the same key is overwritten (last write wins).
#[verifier::loop_isolation(false)]
fn insert_meta(acc: &mut Vec<(Vec<u8>, Vec<u8>)>, key: Vec<u8>, val: Vec<u8>)
    ensures
        meta_entries(final(acc)@) == spec_insert(meta_entries(old(acc)@), key@, val@),
{
    let ghost orig = acc@;
    let ghost s0 = meta_entries(orig);
    let n = acc.len();
    let mut i: usize = 0;
    let mut stop = false;
    while !stop && i < n
        invariant
            n == acc@.len(),
            s0.len() == n,
            acc@ == orig,
            i <= n,
            forall|j: int| 0 <= j < i ==> lex_lt((#[trigger] s0[j]).0, key@),
            stop ==> i < n && !lex_lt(s0[i as int].0, key@),
        decreases n - i + if stop {
            0nat
        } else {
            1nat
        },
    {
        proof {
            assert(s0[i as int] == (acc@[i as int].0@, acc@[i as int].1@));
        }
        if key_lt(&acc[i].0, &key) {
            i += 1;
        } else {
            stop = true;
        }
    }
    let mut replace = false;
    if i < n {
        if key_eq(&acc[i].0, &key) {
            replace = true;
        }
    }
    let ghost kv = (key@, val@);
    let ghost target = spec_insert(s0, key@, val@);
    proof {
        lemma_insert_shape(s0, key@, val@, i as int);
    }
    if replace {
        acc.remove(i);
        acc.insert(i, (key, val));
        proof {
            let rem = orig.remove(i as int);
            orig.remove_ensures(i as int);
            rem.insert_ensures(i as int, acc@[i as int]);
            assert(target == s0.take(i as int) + seq![kv] + s0.skip(i as int + 1));
            assert forall|p: int| 0 <= p < meta_entries(acc@).len() implies meta_entries(acc@)[p]
                == target[p] by {
                if p < i {
                    assert(acc@[p] == rem[p]);
                    assert(rem[p] == orig[p]);
                    assert(target[p] == s0[p]);
                } else if p == i {
                    assert(target[p] == kv);
                } else {
                    assert(acc@[p] == rem[p - 1]);
                    assert(rem[p - 1] == orig[p]);
                    assert(target[p] == s0.skip(i as int + 1)[p - i - 1]);
                    assert(target[p] == s0[p]);
                }
            }
            assert(meta_entries(acc@) =~= target);
        }
    } else {
        acc.insert(i, (key, val));
        proof {
            orig.insert_ensures(i as int, acc@[i as int]);
            assert(target == s0.take(i as int) + seq![kv] + s0.skip(i as int));
            assert forall|p: int| 0 <= p < meta_entries(acc@).len() implies meta_entries(acc@)[p]
                == target[p] by {
                if p < i {
                    assert(acc@[p] == orig[p]);
                    assert(target[p] == s0[p]);
                } else if p == i {
                    assert(target[p] == kv);
                } else {
                    assert(acc@[p] == orig[p - 1]);
                    assert(target[p] == s0.skip(i as int)[p - i - 1]);
                    assert(target[p] == s0[p - 1]);
                }
            }
            assert(meta_entries(acc@) =~= target);
        }
    }
}

/// Brings the caller's metadata list into canonical form: keys as UTF-8
/// bytes, duplicates resolved last-write-wins, strictly sorted by key.
#[verifier::loop_isolation(false)]
fn prepare_meta(info: Vec<PairStrStr>) -> (r: Vec<(Vec<u8>, Vec<u8>)>)
    ensures
        meta_entries(r@) == canon(meta_pairs_model(info@)),
{
    let ghost orig = info@;
    let ghost m = meta_pairs_model(orig);
    let mut rest = info;
    let total = rest.len();
    let mut acc: Vec<(Vec<u8>, Vec<u8>)> = Vec::new();
    let mut idx: usize = 0;
    proof {
        assert(rest@ =~= orig.skip(0));
        assert(meta_entries(acc@) =~= Seq::<(Seq<u8>, Seq<u8>)>::empty());
        assert(m.take(0) =~= Seq::<(Seq<u8>, Seq<u8>)>::empty());
    }
    while rest.len() > 0
        invariant
            idx + rest@.len() == total,
            m.len() == total,
            orig.len() == total,
            idx <= total,
            rest@ =~= orig.skip(idx as int),
            sorted_strict(meta_entries(acc@)),
            map_of(meta_entries(acc@)) == map_of(m.take(idx as int)),
        decreases rest@.len(),
    {
        let pair = rest.remove(0);
        proof {
            assert(pair == orig[idx as int]);
            assert(rest@ =~= orig.skip(idx as int + 1));
            assert(m[idx as int] == (encode_utf8(pair.key@), encode_utf8(pair.value@)));
        }
        let kb = vstd::slice::slice_to_vec(pair.key.as_str().as_bytes());
        let vb = vstd::slice::slice_to_vec(pair.value.as_str().as_bytes());
        let ghost pre = meta_entries(acc@);
        proof {
            assert(kb@ == m[idx as int].0);
            assert(vb@ == m[idx as int].1);
        }
        insert_meta(&mut acc, kb, vb);
        proof {
            lemma_insert_sorted(pre, m[idx as int].0, m[idx as int].1);
            assert(m.take(idx as int + 1).drop_last() =~= m.take(idx as int));
            assert(m.take(idx as int + 1).last() == m[idx as int]);
            assert(map_of(meta_entries(acc@)) == map_of(m.take(idx as int + 1)));
        }
        idx += 1;
    }
    proof {
        assert(m.take(idx as int) =~= m);
        lemma_canon(m);
        lemma_sorted_canonical(meta_entries(acc@), canon(m));
    }
    acc
}

/// Appends the bytes of `"dtype":`.
fn emit_kw_dtype(out: &mut Vec<u8>)
    ensures
        final(out)@ == old(out)@ + kw_dtype(),
{
    out.push(34);
    out.push(100);
    out.push(116);
    out.push(121);
    out.push(112);
    out.push(101);
    out.push(34);
    out.push(58);
    assert(final(out)@ =~= old(out)@ + kw_dtype());
}

/// Appends the bytes of `"shape":`.
fn emit_kw_shape(out: &mut Vec<u8>)
    ensures
        final(out)@ == old(out)@ + kw_shape(),
{
    out.push(34);
    out.push(115);
    out.push(104);
    out.push(97);
    out.push(112);
    out.push(101);
    out.push(34);
    out.push(58);
    assert(final(out)@ =~= old(out)@ + kw_shape());
}

/// Appends the bytes of `"data_offsets":`.
fn emit_kw_offsets(out: &mut Vec<u8>)
    ensures
        final(out)@ == old(out)@ + kw_offsets(),
{
    out.push(34);
    out.push(100);
    out.push(97);
    out.push(116);
    out.push(97);
    out.push(95);
    out.push(111);
    out.push(102);
    out.push(102);
    out.push(115);
    out.push(101);
    out.push(116);
    out.push(115);
    out.push(34);
    out.push(58);
    assert(final(out)@ =~= old(out)@ + kw_offsets());
}

/// Appends the comma-separated dimension list of a shape (no brackets).
#[verifier::loop_isolation(false)]
fn emit_shape_items(out: &mut Vec<u8>, dims: &Vec<usize>)
    ensures
        final(out)@ == old(out)@ + shape_items(dims@),
{
    let ghost base = out@;
    let n = dims.len();
    let mut i: usize = 0;
    proof {
        assert(dims@.take(0) =~= Seq::<usize>::empty());
        assert(out@ =~= base + shape_items(dims@.take(0)));
    }
    while i < n
        invariant
            i <= n,
            n == dims@.len(),
            out@ == base + shape_items(dims@.take(i as int)),
        decreases n - i,
    {
        if i > 0 {
            out.push(44);
        }
        emit_dec(out, dims[i]);
        proof {
            assert(dims@.take(i + 1).drop_last() =~= dims@.take(i as int));
            assert(dims@.take(i + 1).last() == dims@[i as int]);
            assert(out@ =~= base + shape_items(dims@.take(i + 1)));
        }
        i += 1;
    }
    proof {
        assert(dims@.take(n as int) =~= dims@);
    }
}

/// Appends one tensor's header entry.
#[verifier::rlimit(60)]
fn emit_entry(out: &mut Vec<u8>, name: &Vec<u8>, tv: &TensorView, begin: usize)
    requires
        begin + tv.data@.len() <= usize::MAX,
    ensures
        final(out)@ == old(out)@ + entry_json((name@, tv@), begin as nat),
{
    emit_quoted(out, name);
    out.push(58);
    out.push(123);
    emit_kw_dtype(out);
    out.push(34);
    emit_dtype_name(out, tv.dtype);
    out.push(34);
    out.push(44);
    emit_kw_shape(out);
    out.push(91);
    emit_shape_items(out, &tv.shape);
    out.push(93);
    out.push(44);
    emit_kw_offsets(out);
    out.push(91);
    emit_dec(out, begin);
    out.push(44);
    emit_dec(out, begin + tv.data_len());
    out.push(93);
    out.push(125);
    assert(final(out)@ =~= old(out)@ + entry_json((name@, tv@), begin as nat));
}

/// Appends the complete `"__metadata__":{...}` header member.
#[verifier::loop_isolation(false)]
fn emit_meta(out: &mut Vec<u8>, entries: &Vec<(Vec<u8>, Vec<u8>)>)
    ensures
        final(out)@ == old(out)@ + meta_json(meta_entries(entries@)),
{
    let ghost base = out@;
    let ghost mm = meta_entries(entries@);
    let mut mk: Vec<u8> = Vec::new();
    mk.push(95);
    mk.push(95);
    mk.push(109);
    mk.push(101);
    mk.push(116);
    mk.push(97);
    mk.push(100);
    mk.push(97);
    mk.push(116);
    mk.push(97);
    mk.push(95);
    mk.push(95);
    proof {
        assert(mk@ =~= metadata_key());
    }
    emit_quoted(out, &mk);
    out.push(58);
    out.push(123);
    let ghost mid = base + quoted(metadata_key()) + seq![58u8, 123u8];
    proof {
        assert(out@ =~= mid + meta_items(mm, 0));
    }
    let n = entries.len();
    let mut i: usize = 0;
    while i < n
        invariant
            i <= n,
            n == entries@.len(),
            out@ == mid + meta_items(mm, i as int),
        decreases n - i,
    {
        if i > 0 {
            out.push(44);
        }
        emit_quoted(out, &entries[i].0);
        out.push(58);
        emit_quoted(out, &entries[i].1);
        proof {
            assert(mm[i as int] == (entries@[i as int].0@, entries@[i as int].1@));
            assert(out@ =~= mid + meta_items(mm, i + 1));
        }
        i += 1;
    }
    out.push(125);
    proof {
        assert(out@ =~= base + meta_json(mm));
    }
}

/// Serializes a set of named tensors and optional metadata into the
/// container byte layout.
///
/// Succeeds exactly when every view passes validation and the total payload
/// size fits the address-width integer. On success the output is the exact
/// byte sequence [`spec_serialize`] defines: length prefix, compact JSON
/// header (metadata first if present, then tensors in strict lexicographic
/// name order, duplicates resolved last-write-wins), then the payload. On
/// failure nothing is produced but the error: the first invalid view in
/// input order, or the overflow of the offset accumulation.
#[verifier::loop_isolation(false)]
#[verifier::rlimit(100)]
pub fn serialize(data: Vec<PairStrTensorView>, data_info: Option<Vec<PairStrStr>>) -> (r: Result<
    Vec<u8>,
    SafeTensorError,
>)
    ensures
        match r {
            Ok(out) => all_valid(pairs_model(data@)) && sum_lens(canon(pairs_model(data@)))
                <= usize::MAX && out@ == spec_serialize(
                pairs_model(data@),
                meta_model_of(data_info),
            ),
            Err(e) => (exists|i: int| fails_at(pairs_model(data@), e, i)) || (all_valid(
                pairs_model(data@),
            ) && e == SafeTensorError::ValidationOverflow && sum_lens(canon(pairs_model(data@)))
                > usize::MAX),
        },
{
    let ghost tm = pairs_model(data@);
    let ghost mm = meta_model_of(data_info);
    let set = match prepare(data) {
        Ok(s) => s,
        Err(e) => {
            return Err(e);
        }
    };
    let ghost s = set.model();
    proof {
        lemma_canon(tm);
        lemma_sorted_canonical(s, canon(tm));
        assert(s == canon(tm));
    }
    let meta_sorted: Option<Vec<(Vec<u8>, Vec<u8>)>> = match data_info {
        None => None,
        Some(info) => Some(prepare_meta(info)),
    };
    let ghost mmc: Option<Seq<(Seq<u8>, Seq<u8>)>> = match &meta_sorted {
        None => None,
        Some(mv) => Some(meta_entries(mv@)),
    };
    proof {
        assert(mmc == match mm {
            None => None::<Seq<(Seq<u8>, Seq<u8>)>>,
            Some(x) => Some(canon(x)),
        });
    }
    // total payload size, with checked accumulation
    let n_t = set.entries.len();
    let mut total: usize = 0;
    let mut i: usize = 0;
    proof {
        assert(s.take(0) =~= Seq::<TEntry>::empty());
    }
    while i < n_t
        invariant
            i <= n_t,
            n_t == set.entries@.len(),
            total == sum_lens(s.take(i as int)),
        decreases n_t - i,
    {
        proof {
            assert(s.take(i + 1).drop_last() =~= s.take(i as int));
            assert(s.take(i + 1).last() == s[i as int]);
            assert(s[i as int].1.2 == set.entries@[i as int].1.data@);
        }
        let len_i = set.entries[i].1.data.len();
        match total.checked_add(len_i) {
            Some(t) => {
                total = t;
            }
            None => {
                proof {
                    lemma_sum_prefix_le(s, i + 1);
                }
                return Err(SafeTensorError::ValidationOverflow);
            }
        }
        i += 1;
    }
    proof {
        assert(s.take(n_t as int) =~= s);
        assert(total == sum_lens(s));
    }
    // the JSON header
    let mut hdr: Vec<u8> = Vec::new();
    hdr.push(123);
    let ghost lead: Seq<u8> = match mmc {
        None => seq![123u8],
        Some(mms) => seq![123u8] + meta_json(mms) + (if s.len() > 0 {
            seq![44u8]
        } else {
            Seq::<u8>::empty()
        }),
    };
    match &meta_sorted {
        None => {}
        Some(mv) => {
            emit_meta(&mut hdr, mv);
            if n_t > 0 {
                hdr.push(44);
            }
        }
    }
    proof {
        assert(hdr@ =~= lead + tensors_items(s, 0));
    }
    let mut cursor: usize = 0;
    let mut i: usize = 0;
    while i < n_t
        invariant
            i <= n_t,
            n_t == set.entries@.len(),
            cursor == sum_lens(s.take(i as int)),
            hdr@ == lead + tensors_items(s, i as int),
        decreases n_t - i,
    {
        proof {
            assert(s.take(i + 1).drop_last() =~= s.take(i as int));
            assert(s.take(i + 1).last() == s[i as int]);
            assert(s[i as int] == (set.entries@[i as int].0@, set.entries@[i as int].1@));
            lemma_sum_prefix_le(s, i + 1);
        }
        if i > 0 {
            hdr.push(44);
        }
        let er = &set.entries[i];
        emit_entry(&mut hdr, &er.0, &er.1, cursor);
        proof {
            assert(hdr@ =~= lead + tensors_items(s, i + 1));
        }
        cursor = cursor + er.1.data.len();
        i += 1;
    }
    hdr.push(125);
    proof {
        assert(s.take(n_t as int) =~= s);
        assert(hdr@ =~= header_json(mmc, s));
    }
    // assemble: length prefix, header, payload
    let mut out: Vec<u8> = Vec::new();
    let hlen = hdr.len();
    emit_le8(&mut out, hlen as u64);
    let ghost hdr_bytes = hdr@;
    out.append(&mut hdr);
    let mut i: usize = 0;
    proof {
        assert(payload_bytes(s.take(0)) =~= Seq::<u8>::empty());
        assert(out@ =~= le8(hdr_bytes.len()) + hdr_bytes + payload_bytes(s.take(0)));
    }
    while i < n_t
        invariant
            i <= n_t,
            n_t == set.entries@.len(),
            out@ == le8(hdr_bytes.len()) + hdr_bytes + payload_bytes(s.take(i as int)),
        decreases n_t - i,
    {
        proof {
            assert(s.take(i + 1).drop_last() =~= s.take(i as int));
            assert(s.take(i + 1).last() == s[i as int]);
            assert(s[i as int].1.2 == set.entries@[i as int].1.data@);
        }
        let ghost before = out@;
        let m_len = set.entries[i].1.data.len();
        let mut j: usize = 0;
        while j < m_len
            invariant
                j <= m_len,
                i < n_t,
                n_t == set.entries@.len(),
                m_len == set.entries@[i as int].1.data@.len(),
                out@ == before + set.entries@[i as int].1.data@.take(j as int),
            decreases m_len - j,
        {
            let b = set.entries[i].1.data[j];
            out.push(b);
            proof {
                assert(set.entries@[i as int].1.data@.take(j + 1) =~= set.entries@[i as int].1.data@.take(
                    j as int,
                ).push(set.entries@[i as int].1.data@[j as int]));
            }
            j += 1;
        }
        proof {
            assert(set.entries@[i as int].1.data@.take(m_len as int) =~= set.entries@[i as int].1.data@);
            assert(out@ =~= le8(hdr_bytes.len()) + hdr_bytes + payload_bytes(s.take(i + 1)));
        }
        i += 1;
    }
    proof {
        assert(s.take(n_t as int) =~= s);
        assert(out@ =~= spec_serialize(tm, mm));
    }
    Ok(out)
}

} // verus!
