//! The closed enumeration of supported element types.
//!
//! The declared order is non-decreasing in required memory alignment, so
//! consumers may rely on `ordinal(a) <= ordinal(b)` implying
//! `alignment(a) <= alignment(b)`; see [`lemma_alignment_monotone`].
//!
//! Each variant has an exact bit width. The byte-granular variants also
//! report a byte width through [`Dtype::size`]; the sub-byte variants (4-bit
//! and the two 6-bit formats) report `None` there, and size computations over
//! them use ceiling division over whole groups of elements.

use vstd::prelude::*;

verus! {

/// The available element types, in non-decreasing alignment order.
#[derive(Debug, Clone, Copy, PartialEq, Eq, Structural)]
pub enum Dtype {
    /// Boolean type, one byte per element.
    BOOL,
    /// 4-bit microscaling float.
    F4,
    /// 6-bit microscaling float with 2 exponent and 3 mantissa bits.
    F6E2M3,
    /// 6-bit microscaling float with 3 exponent and 2 mantissa bits.
    F6E3M2,
    /// Unsigned byte.
    U8,
    /// Signed byte.
    I8,
    /// 8-bit float with 5 exponent and 2 mantissa bits.
    F8E5M2,
    /// 8-bit float with 4 exponent and 3 mantissa bits.
    F8E4M3,
    /// 8-bit float holding only an exponent.
    F8E8M0,
    /// Signed 16-bit integer.
    I16,
    /// Unsigned 16-bit integer.
    U16,
    /// Half-precision float.
    F16,
    /// Brain float.
    BF16,
    /// Signed 32-bit integer.
    I32,
    /// Unsigned 32-bit integer.
    U32,
    /// Single-precision float.
    F32,
    /// Double-precision float.
    F64,
    /// Signed 64-bit integer.
    I64,
    /// Unsigned 64-bit integer.
    U64,
}

/// The exact width of one element, in bits.
pub open spec fn spec_bit_size(d: Dtype) -> nat {
    match d {
        Dtype::BOOL => 8,
        Dtype::F4 => 4,
        Dtype::F6E2M3 => 6,
        Dtype::F6E3M2 => 6,
        Dtype::U8 => 8,
        Dtype::I8 => 8,
        Dtype::F8E5M2 => 8,
        Dtype::F8E4M3 => 8,
        Dtype::F8E8M0 => 8,
        Dtype::I16 => 16,
        Dtype::U16 => 16,
        Dtype::F16 => 16,
        Dtype::BF16 => 16,
        Dtype::I32 => 32,
        Dtype::U32 => 32,
        Dtype::F32 => 32,
        Dtype::F64 => 64,
        Dtype::I64 => 64,
        Dtype::U64 => 64,
    }
}

/// The position of a variant in the declared order.
pub open spec fn spec_ordinal(d: Dtype) -> nat {
    match d {
        Dtype::BOOL => 0,
        Dtype::F4 => 1,
        Dtype::F6E2M3 => 2,
        Dtype::F6E3M2 => 3,
        Dtype::U8 => 4,
        Dtype::I8 => 5,
        Dtype::F8E5M2 => 6,
        Dtype::F8E4M3 => 7,
        Dtype::F8E8M0 => 8,
        Dtype::I16 => 9,
        Dtype::U16 => 10,
        Dtype::F16 => 11,
        Dtype::BF16 => 12,
        Dtype::I32 => 13,
        Dtype::U32 => 14,
        Dtype::F32 => 15,
        Dtype::F64 => 16,
        Dtype::I64 => 17,
        Dtype::U64 => 18,
    }
}

/// The memory alignment an element of this dtype requires, in bytes.
/// Sub-byte elements are packed and align to a single byte.
pub open spec fn spec_alignment(d: Dtype) -> nat {
    if spec_bit_size(d) <= 8 {
        1
    } else {
        spec_bit_size(d) / 8
    }
}

impl Dtype {
    /// The exact width of one element, in bits.
    pub fn bit_size(self) -> (r: usize)
        ensures
            r == spec_bit_size(self),
    {
        match self {
            Dtype::BOOL => 8,
            Dtype::F4 => 4,
            Dtype::F6E2M3 => 6,
            Dtype::F6E3M2 => 6,
            Dtype::U8 => 8,
            Dtype::I8 => 8,
            Dtype::F8E5M2 => 8,
            Dtype::F8E4M3 => 8,
            Dtype::F8E8M0 => 8,
            Dtype::I16 => 16,
            Dtype::U16 => 16,
            Dtype::F16 => 16,
            Dtype::BF16 => 16,
            Dtype::I32 => 32,
            Dtype::U32 => 32,
            Dtype::F32 => 32,
            Dtype::F64 => 64,
            Dtype::I64 => 64,
            Dtype::U64 => 64,
        }
    }

    /// The width of one element in whole bytes, or `None` for the sub-byte
    /// dtypes, whose width is only expressible in bits.
    pub fn size(self) -> (r: Option<usize>)
        ensures
            spec_bit_size(self) % 8 == 0 ==> r == Some((spec_bit_size(self) / 8) as usize),
            spec_bit_size(self) % 8 != 0 ==> r is None,
    {
        let bits = self.bit_size();
        if bits % 8 == 0 {
            Some(bits / 8)
        } else {
            None
        }
    }

    /// The position of this variant in the declared order.
    pub fn ordinal(self) -> (r: usize)
        ensures
            r == spec_ordinal(self),
    {
        match self {
            Dtype::BOOL => 0,
            Dtype::F4 => 1,
            Dtype::F6E2M3 => 2,
            Dtype::F6E3M2 => 3,
            Dtype::U8 => 4,
            Dtype::I8 => 5,
            Dtype::F8E5M2 => 6,
            Dtype::F8E4M3 => 7,
            Dtype::F8E8M0 => 8,
            Dtype::I16 => 9,
            Dtype::U16 => 10,
            Dtype::F16 => 11,
            Dtype::BF16 => 12,
            Dtype::I32 => 13,
            Dtype::U32 => 14,
            Dtype::F32 => 15,
            Dtype::F64 => 16,
            Dtype::I64 => 17,
            Dtype::U64 => 18,
        }
    }
}

/// The declared order of the dtype enumeration is non-decreasing in required
/// alignment: a consumer that sees `ordinal(a) <= ordinal(b)` may conclude
/// `alignment(a) <= alignment(b)`.
pub proof fn lemma_alignment_monotone(a: Dtype, b: Dtype)
    requires
        spec_ordinal(a) <= spec_ordinal(b),
    ensures
        spec_alignment(a) <= spec_alignment(b),
{
}

} // verus!
