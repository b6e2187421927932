//! The tensor set validator.
//!
//! [`prepare`] takes the caller's list of named views, re-validates every
//! view against the size invariant (defense in depth: a view may have been
//! built by [`TensorView::from_parts`], which skips validation), resolves
//! duplicate names last-write-wins, and produces the canonical strictly
//! name-sorted set that the header codec serializes.

use vstd::prelude::*;
use vstd::slice::slice_to_vec;
use vstd::utf8::encode_utf8;
use crate::error::SafeTensorError;
use crate::order::{
    lex_lt,
    sorted_strict,
    map_of,
    spec_insert,
    lemma_insert_sorted,
    lemma_insert_shape,
    lemma_insert_membership,
    key_lt,
    key_eq,
};
use crate::view::{
    TensorView,
    TvModel,
    spec_model_valid,
    spec_fits,
    spec_required_bytes,
    checked_required_bytes,
};

verus! {

/// A tensor paired with its name, as the caller hands entries in.
pub struct PairStrTensorView {
    /// The tensor's name.
    pub key: String,
    /// The tensor's view.
    pub value: TensorView,
}

/// A name-keyed entry vector, abstracted to name bytes and view models.
pub open spec fn tensor_entries(s: Seq<(Vec<u8>, TensorView)>) -> Seq<(Seq<u8>, TvModel)> {
    Seq::new(s.len(), |i: int| (s[i].0@, s[i].1@))
}

/// The model of a caller-supplied pair list: each name as its UTF-8 bytes,
/// each view as its model.
pub open spec fn pairs_model(s: Seq<PairStrTensorView>) -> Seq<(Seq<u8>, TvModel)> {
    Seq::new(s.len(), |i: int| (encode_utf8(s[i].key@), s[i].value@))
}

/// Every view in the entry sequence meets the size invariant.
pub open spec fn all_valid(m: Seq<(Seq<u8>, TvModel)>) -> bool {
    forall|i: int| 0 <= i < m.len() ==> spec_model_valid((#[trigger] m[i]).1)
}

/// The error a view failing the size invariant raises: an overflowing
/// requirement is `ValidationOverflow`; otherwise `InvalidTensorView`
/// carrying the dtype, the shape and the actual byte length.
pub open spec fn view_error_matches(e: SafeTensorError, m: TvModel) -> bool {
    match e {
        SafeTensorError::ValidationOverflow => !spec_fits(m.0, m.1),
        SafeTensorError::InvalidTensorView(d, sh, l) => spec_fits(m.0, m.1) && m.2.len()
            != spec_required_bytes(m.0, m.1) && d == m.0 && sh@ == m.1 && l == m.2.len(),
        _ => false,
    }
}

/// Validation failed at entry `i`: every earlier entry is valid, entry `i`
/// is not, and the error describes entry `i`.
pub open spec fn fails_at(m: Seq<(Seq<u8>, TvModel)>, e: SafeTensorError, i: int) -> bool {
    0 <= i < m.len() && !spec_model_valid(m[i].1) && (forall|j: int|
        0 <= j < i ==> spec_model_valid((#[trigger] m[j]).1)) && view_error_matches(e, m[i].1)
}

/// A validated set of named tensors: entries strictly sorted by the UTF-8
/// bytes of their names, every view meeting its size invariant.
pub struct NamedTensorSet {
    /// The entries, each a name (as UTF-8 bytes) with its view, in strict
    /// lexicographic name order.
    pub entries: Vec<(Vec<u8>, TensorView)>,
}

impl NamedTensorSet {
    /// The set's model: its entries, abstracted.
    pub open spec fn model(&self) -> Seq<(Seq<u8>, TvModel)> {
        tensor_entries(self.entries@)
    }

    /// Well-formedness: strictly sorted and every view valid.
    pub open spec fn wf(&self) -> bool {
        sorted_strict(self.model()) && all_valid(self.model())
    }
}

/// Inserts one entry into a name-sorted vector, keeping it sorted; an entry
/// with the same name is overwritten (last write wins).
#[verifier::loop_isolation(false)]
fn insert_entry(acc: &mut Vec<(Vec<u8>, TensorView)>, key: Vec<u8>, val: TensorView)
    ensures
        tensor_entries(final(acc)@) == spec_insert(tensor_entries(old(acc)@), key@, val@),
{
    let ghost orig = acc@;
    let ghost s0 = tensor_entries(orig);
    let n = acc.len();
    let mut i: usize = 0;
    let mut stop = false;
    while !stop && i < n
        invariant
            n == acc@.len(),
            s0.len() == n,
            acc@ == orig,
            i <= n,
            forall|j: int| 0 <= j < i ==> lex_lt((#[trigger] s0[j]).0, key@),
            stop ==> i < n && !lex_lt(s0[i as int].0, key@),
        decreases n - i + if stop {
            0nat
        } else {
            1nat
        },
    {
        proof {
            assert(s0[i as int] == (orig[i as int].0@, orig[i as int].1@));
            assert(s0[i as int].0 == acc@[i as int].0@);
        }
        if key_lt(&acc[i].0, &key) {
            i += 1;
        } else {
            stop = true;
        }
    }
    let mut replace = false;
    if i < n {
        if key_eq(&acc[i].0, &key) {
            replace = true;
        }
    }
    let ghost kv = (key@, val@);
    let ghost target = spec_insert(s0, key@, val@);
    proof {
        lemma_insert_shape(s0, key@, val@, i as int);
    }
    if replace {
        acc.remove(i);
        acc.insert(i, (key, val));
        proof {
            let rem = orig.remove(i as int);
            orig.remove_ensures(i as int);
            rem.insert_ensures(i as int, acc@[i as int]);
            assert(target == s0.take(i as int) + seq![kv] + s0.skip(i as int + 1));
            assert forall|p: int| 0 <= p < tensor_entries(acc@).len() implies tensor_entries(acc@)[p]
                == target[p] by {
                if p < i {
                    assert(acc@[p] == rem[p]);
                    assert(rem[p] == orig[p]);
                    assert(target[p] == s0[p]);
                } else if p == i {
                    assert(target[p] == kv);
                } else {
                    assert(acc@[p] == rem[p - 1]);
                    assert(rem[p - 1] == orig[p]);
                    assert(target[p] == s0.skip(i as int + 1)[p - i - 1]);
                    assert(target[p] == s0[p]);
                }
            }
            assert(tensor_entries(acc@) =~= target);
        }
    } else {
        acc.insert(i, (key, val));
        proof {
            orig.insert_ensures(i as int, acc@[i as int]);
            assert(target == s0.take(i as int) + seq![kv] + s0.skip(i as int));
            assert forall|p: int| 0 <= p < tensor_entries(acc@).len() implies tensor_entries(acc@)[p]
                == target[p] by {
                if p < i {
                    assert(acc@[p] == orig[p]);
                    assert(target[p] == s0[p]);
                } else if p == i {
                    assert(target[p] == kv);
                } else {
                    assert(acc@[p] == orig[p - 1]);
                    assert(target[p] == s0.skip(i as int)[p - i - 1]);
                    assert(target[p] == s0[p - 1]);
                }
            }
            assert(tensor_entries(acc@) =~= target);
        }
    }
}

/// Validates and canonicalizes a caller-supplied list of named tensors.
///
/// Re-validates every view's size invariant, failing fast with the first
/// invalid entry in input order. Duplicate names resolve last-write-wins.
/// The resulting set is strictly sorted by name bytes and denotes exactly
/// the mapping the input denotes.
#[verifier::loop_isolation(false)]
pub fn prepare(data: Vec<PairStrTensorView>) -> (r: Result<NamedTensorSet, SafeTensorError>)
    ensures
        match r {
            Ok(set) => all_valid(pairs_model(data@)) && set.wf() && map_of(set.model()) == map_of(
                pairs_model(data@),
            ),
            Err(e) => exists|i: int| fails_at(pairs_model(data@), e, i),
        },
{
    let ghost orig = data@;
    let ghost m = pairs_model(orig);
    let mut rest = data;
    let total = rest.len();
    let mut acc: Vec<(Vec<u8>, TensorView)> = Vec::new();
    let mut idx: usize = 0;
    proof {
        assert(rest@ =~= orig.skip(0));
        assert(tensor_entries(acc@) =~= Seq::<(Seq<u8>, TvModel)>::empty());
        assert(m.take(0) =~= Seq::<(Seq<u8>, TvModel)>::empty());
        assert(map_of(tensor_entries(acc@)) == map_of(m.take(0)));
    }
    while rest.len() > 0
        invariant
            m == pairs_model(orig),
            idx + rest@.len() == total,
            m.len() == total,
            orig.len() == total,
            idx <= total,
            rest@ =~= orig.skip(idx as int),
            forall|j: int| 0 <= j < idx ==> spec_model_valid((#[trigger] m[j]).1),
            sorted_strict(tensor_entries(acc@)),
            all_valid(tensor_entries(acc@)),
            map_of(tensor_entries(acc@)) == map_of(m.take(idx as int)),
        decreases rest@.len(),
    {
        let pair = rest.remove(0);
        proof {
            assert(pair == orig[idx as int]);
            assert(rest@ =~= orig.skip(idx as int + 1));
            assert(m[idx as int] == (encode_utf8(pair.key@), pair.value@));
        }
        let TensorView { dtype: d, shape: sh, data: buf } = pair.value;
        match checked_required_bytes(d, &sh) {
            None => {
                proof {
                    assert(fails_at(m, SafeTensorError::ValidationOverflow, idx as int));
                }
                return Err(SafeTensorError::ValidationOverflow);
            }
            Some(need) => {
                if buf.len() != need {
                    let actual = buf.len();
                    proof {
                        assert(fails_at(
                            m,
                            SafeTensorError::InvalidTensorView(d, sh, actual),
                            idx as int,
                        ));
                    }
                    return Err(SafeTensorError::InvalidTensorView(d, sh, actual));
                }
                let name = slice_to_vec(pair.key.as_str().as_bytes());
                let tv = TensorView { dtype: d, shape: sh, data: buf };
                let ghost pre = tensor_entries(acc@);
                proof {
                    assert(name@ == m[idx as int].0);
                    assert(tv@ == m[idx as int].1);
                    assert(spec_model_valid(tv@));
                }
                insert_entry(&mut acc, name, tv);
                proof {
                    lemma_insert_sorted(pre, m[idx as int].0, m[idx as int].1);
                    lemma_insert_membership(pre, m[idx as int].0, m[idx as int].1);
                    let cur = tensor_entries(acc@);
                    assert forall|p: int| 0 <= p < cur.len() implies spec_model_valid(
                        (#[trigger] cur[p]).1,
                    ) by {
                        if cur[p] != (m[idx as int].0, m[idx as int].1) {
                            let j = choose|j: int| 0 <= j < pre.len() && cur[p] == pre[j];
                            assert(spec_model_valid(pre[j].1));
                        }
                    }
                    assert(m.take(idx as int + 1).drop_last() =~= m.take(idx as int));
                    assert(m.take(idx as int + 1).last() == m[idx as int]);
                    assert(map_of(cur) == map_of(m.take(idx as int + 1)));
                }
                idx += 1;
            }
        }
    }
    proof {
        assert(m.take(idx as int) =~= m);
    }
    Ok(NamedTensorSet { entries: acc })
}

} // verus!
