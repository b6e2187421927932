//! Tensor views: a dtype, a shape and a byte buffer, bound together by a
//! validated size invariant.
//!
//! The invariant is exact: the buffer holds precisely the ceiling-packed
//! byte count that `element count * bit width` requires, never more and
//! never less. All size arithmetic is checked; a shape whose element count
//! (or bit total) exceeds the address-width integer is rejected as
//! [`SafeTensorError::ValidationOverflow`] rather than wrapped.

use vstd::prelude::*;
use crate::dtype::{Dtype, spec_bit_size};
use crate::error::SafeTensorError;

verus! {

/// The number of elements a shape describes: the product of its dimensions.
/// An empty shape (a scalar) has one element; a zero dimension gives zero.
pub open spec fn spec_elem_count(shape: Seq<usize>) -> nat
    decreases shape.len(),
{
    if shape.len() == 0 {
        1
    } else {
        spec_elem_count(shape.drop_last()) * (shape.last() as nat)
    }
}

/// The total storage the triple requires, in bits.
pub open spec fn spec_required_bits(dtype: Dtype, shape: Seq<usize>) -> nat {
    spec_elem_count(shape) * spec_bit_size(dtype)
}

/// The bit total fits the address-width integer, so the byte length derived
/// from it cannot silently wrap.
pub open spec fn spec_fits(dtype: Dtype, shape: Seq<usize>) -> bool {
    spec_required_bits(dtype, shape) <= usize::MAX
}

/// The storage the triple requires in whole bytes: the ceiling-packed byte
/// count, so a group of sub-byte elements is rounded up to its last partial
/// byte, never truncated.
pub open spec fn spec_required_bytes(dtype: Dtype, shape: Seq<usize>) -> nat {
    (spec_required_bits(dtype, shape) + 7) / 8
}

/// The buffer length is exactly what the dtype and shape require.
pub open spec fn spec_valid_view(dtype: Dtype, shape: Seq<usize>, data: Seq<u8>) -> bool {
    spec_fits(dtype, shape) && data.len() == spec_required_bytes(dtype, shape)
}

/// The mathematical content of a tensor view: its dtype, its dimension
/// sequence and its byte sequence.
pub type TvModel = (Dtype, Seq<usize>, Seq<u8>);

/// The size invariant, stated of a view's model.
pub open spec fn spec_model_valid(m: TvModel) -> bool {
    spec_valid_view(m.0, m.1, m.2)
}

/// A dimension of zero makes the whole element count zero.
proof fn lemma_elem_count_zero(shape: Seq<usize>, i: int)
    requires
        0 <= i < shape.len(),
        shape[i] == 0,
    ensures
        spec_elem_count(shape) == 0,
    decreases shape.len(),
{
    if i == shape.len() - 1 {
        assert(shape.last() == 0);
    } else {
        assert(shape.drop_last()[i] == shape[i]);
        lemma_elem_count_zero(shape.drop_last(), i);
    }
}

/// With every dimension at least one, the product over a prefix never
/// exceeds the product over the whole shape.
proof fn lemma_elem_count_prefix_le(shape: Seq<usize>, i: int)
    requires
        0 <= i <= shape.len(),
        forall|j: int| 0 <= j < shape.len() ==> shape[j] >= 1,
    ensures
        spec_elem_count(shape.take(i)) <= spec_elem_count(shape),
    decreases shape.len() - i,
{
    if i == shape.len() {
        assert(shape.take(i) =~= shape);
    } else {
        lemma_elem_count_prefix_le(shape, i + 1);
        assert(shape.take(i + 1).drop_last() =~= shape.take(i));
        assert(shape.take(i + 1).last() == shape[i]);
        let a = spec_elem_count(shape.take(i));
        let b = shape[i] as nat;
        assert(a <= a * b) by (nonlinear_arith)
            requires
                b >= 1,
        ;
    }
}

/// The element count of a shape, computed with checked multiplication.
/// Returns `None` exactly when the product exceeds the address-width
/// integer; it never wraps.
pub fn checked_elem_count(shape: &Vec<usize>) -> (r: Option<usize>)
    ensures
        match r {
            Some(n) => n == spec_elem_count(shape@),
            None => spec_elem_count(shape@) > usize::MAX,
        },
{
    let n = shape.len();
    let mut i: usize = 0;
    while i < n
        invariant
            n == shape@.len(),
            0 <= i <= n,
            forall|j: int| 0 <= j < i ==> shape@[j] >= 1,
        decreases n - i,
    {
        if shape[i] == 0 {
            proof {
                lemma_elem_count_zero(shape@, i as int);
            }
            return Some(0);
        }
        i += 1;
    }
    let mut acc: usize = 1;
    let mut k: usize = 0;
    while k < n
        invariant
            n == shape@.len(),
            0 <= k <= n,
            forall|j: int| 0 <= j < n ==> shape@[j] >= 1,
            acc == spec_elem_count(shape@.take(k as int)),
        decreases n - k,
    {
        proof {
            assert(shape@.take(k + 1).drop_last() =~= shape@.take(k as int));
            assert(shape@.take(k + 1).last() == shape@[k as int]);
        }
        match acc.checked_mul(shape[k]) {
            Some(next) => {
                acc = next;
            }
            None => {
                proof {
                    lemma_elem_count_prefix_le(shape@, k + 1);
                }
                return None;
            }
        }
        k += 1;
    }
    proof {
        assert(shape@.take(n as int) =~= shape@);
    }
    Some(acc)
}

/// The byte length a (dtype, shape) pair requires, computed with checked
/// arithmetic. Returns `None` exactly when the bit total overflows the
/// address-width integer.
pub fn checked_required_bytes(dtype: Dtype, shape: &Vec<usize>) -> (r: Option<usize>)
    ensures
        match r {
            Some(n) => n == spec_required_bytes(dtype, shape@) && spec_fits(dtype, shape@),
            None => !spec_fits(dtype, shape@),
        },
{
    let count = match checked_elem_count(shape) {
        Some(c) => c,
        None => {
            proof {
                let c = spec_elem_count(shape@);
                let w = spec_bit_size(dtype);
                assert(w >= 1);
                assert(c <= c * w) by (nonlinear_arith)
                    requires
                        w >= 1,
                ;
            }
            return None;
        }
    };
    let bits = match count.checked_mul(dtype.bit_size()) {
        Some(b) => b,
        None => {
            return None;
        }
    };
    let bytes = bits / 8 + if bits % 8 != 0 { 1 } else { 0 };
    Some(bytes)
}

/// An immutable descriptor binding an element type, a shape and the bytes
/// of the elements.
///
/// The view owns its bytes: of the two strategies for carrying tensor data
/// across an ownership boundary, this crate copies into the view rather
/// than borrowing, so a view can outlive the buffer it was made from.
pub struct TensorView {
    /// The element type.
    pub dtype: Dtype,
    /// The dimension sizes, outermost first.
    pub shape: Vec<usize>,
    /// The element bytes, ceiling-packed for sub-byte dtypes.
    pub data: Vec<u8>,
}

impl View for TensorView {
    type V = (Dtype, Seq<usize>, Seq<u8>);

    open spec fn view(&self) -> (Dtype, Seq<usize>, Seq<u8>) {
        (self.dtype, self.shape@, self.data@)
    }
}

impl TensorView {
    /// The size invariant: the buffer length matches the dtype/shape
    /// requirement exactly, with no overflow in the requirement itself.
    pub open spec fn wf(&self) -> bool {
        spec_valid_view(self.dtype, self.shape@, self.data@)
    }

    /// Binds the triple with no validation. This is the untrusted
    /// construction path; [`prepare`](crate::set::prepare) re-validates
    /// every view it is handed, so a view built here cannot slip an
    /// inconsistent length into a serialized container.
    pub fn from_parts(dtype: Dtype, shape: Vec<usize>, data: Vec<u8>) -> (r: TensorView)
        ensures
            r.dtype == dtype,
            r.shape == shape,
            r.data == data,
    {
        TensorView { dtype, shape, data }
    }

    /// The element type.
    pub fn dtype(&self) -> (r: Dtype)
        ensures
            r == self.dtype,
    {
        self.dtype
    }

    /// The dimension sizes.
    pub fn shape(&self) -> (r: &Vec<usize>)
        ensures
            r@ == self.shape@,
    {
        &self.shape
    }

    /// The element bytes, borrowed without copying.
    pub fn data(&self) -> (r: &[u8])
        ensures
            r@ == self.data@,
    {
        self.data.as_slice()
    }

    /// The byte length of the data, callable independently of [`Self::data`].
    pub fn data_len(&self) -> (r: usize)
        ensures
            r == self.data@.len(),
    {
        self.data.len()
    }
}

/// Validates a (dtype, shape, data) triple and binds it into a view.
///
/// Succeeds exactly when the buffer length equals the required byte count;
/// an overflowing requirement is `ValidationOverflow`, any other mismatch is
/// `InvalidTensorView` carrying the dtype, the shape and the actual length.
pub fn make_view(dtype: Dtype, shape: Vec<usize>, data: Vec<u8>) -> (r: Result<
    TensorView,
    SafeTensorError,
>)
    ensures
        match r {
            Ok(v) => spec_valid_view(dtype, shape@, data@) && v.dtype == dtype && v.shape@
                == shape@ && v.data@ == data@,
            Err(e) => match e {
                SafeTensorError::ValidationOverflow => !spec_fits(dtype, shape@),
                SafeTensorError::InvalidTensorView(d2, s2, l2) => spec_fits(dtype, shape@)
                    && data@.len() != spec_required_bytes(dtype, shape@) && d2 == dtype && s2@
                    == shape@ && l2 == data@.len(),
                _ => false,
            },
        },
{
    match checked_required_bytes(dtype, &shape) {
        None => Err(SafeTensorError::ValidationOverflow),
        Some(need) => {
            if data.len() != need {
                let actual = data.len();
                Err(SafeTensorError::InvalidTensorView(dtype, shape, actual))
            } else {
                Ok(TensorView { dtype, shape, data })
            }
        }
    }
}

} // verus!
