//! Byte-exact JSON emission primitives.
//!
//! The header of the container format is a compact JSON object. Every
//! fragment the codec emits is specified here down to the byte: decimal
//! renderings of numbers, string escaping, dtype names, and the 8-byte
//! little-endian length prefix. The escaping rules match the common compact
//! JSON convention: quote and backslash get a two-character escape, the
//! five control characters with short names get theirs, any other control
//! character becomes a lowercase `\u00..` escape, and every other byte is
//! emitted as it stands.

use vstd::prelude::*;
use crate::dtype::Dtype;

verus! {

/// The decimal digits of `n`, most significant first, no sign, no padding.
pub open spec fn dec_digits(n: nat) -> Seq<u8>
    decreases n,
{
    if n < 10 {
        seq![(48 + n) as u8]
    } else {
        dec_digits(n / 10) + seq![(48 + n % 10) as u8]
    }
}

/// The lowercase hexadecimal digit for a value below 16.
pub open spec fn hex_digit(n: u8) -> u8
    recommends
        n < 16,
{
    if n < 10 {
        (48 + n) as u8
    } else {
        (87 + n) as u8
    }
}

/// How one byte appears inside a JSON string literal.
pub open spec fn esc_byte(b: u8) -> Seq<u8> {
    if b == 34 {  // quote
        seq![92u8, 34u8]
    } else if b == 92 {  // backslash
        seq![92u8, 92u8]
    } else if b == 8 {
        seq![92u8, 98u8]  // \b
    } else if b == 9 {
        seq![92u8, 116u8]  // \t
    } else if b == 10 {
        seq![92u8, 110u8]  // \n
    } else if b == 12 {
        seq![92u8, 102u8]  // \f
    } else if b == 13 {
        seq![92u8, 114u8]  // \r
    } else if b < 32 {
        seq![92u8, 117u8, 48u8, 48u8, hex_digit(b / 16), hex_digit(b % 16)]
    } else {
        seq![b]
    }
}

/// A byte string escaped for a JSON string literal.
pub open spec fn esc(s: Seq<u8>) -> Seq<u8>
    decreases s.len(),
{
    if s.len() == 0 {
        Seq::empty()
    } else {
        esc_byte(s[0]) + esc(s.drop_first())
    }
}

/// A byte string as a complete JSON string literal, quotes included.
pub open spec fn quoted(s: Seq<u8>) -> Seq<u8> {
    seq![34u8] + esc(s) + seq![34u8]
}

/// Escaping distributes over appending one byte.
pub proof fn lemma_esc_push(s: Seq<u8>, b: u8)
    ensures
        esc(s.push(b)) == esc(s) + esc_byte(b),
    decreases s.len(),
{
    if s.len() == 0 {
        assert(s.push(b)[0] == b);
        assert(s.push(b).len() == 1);
        assert(s.push(b).drop_first() =~= Seq::<u8>::empty());
        assert(esc(Seq::<u8>::empty()) == Seq::<u8>::empty());
        assert(esc(s.push(b)) == esc_byte(s.push(b)[0]) + esc(s.push(b).drop_first()));
        assert(esc(s.push(b)) =~= esc_byte(b));
        assert(esc(s) + esc_byte(b) =~= esc_byte(b));
    } else {
        assert(s.push(b)[0] == s[0]);
        assert(s.push(b).drop_first() =~= s.drop_first().push(b));
        lemma_esc_push(s.drop_first(), b);
        assert(esc(s.push(b)) =~= esc(s) + esc_byte(b));
    }
}

/// The name of a dtype as it appears in the header, as ASCII bytes.
pub open spec fn dtype_name_bytes(d: Dtype) -> Seq<u8> {
    match d {
        Dtype::BOOL => seq![66u8, 79u8, 79u8, 76u8],
        Dtype::F4 => seq![70u8, 52u8],
        Dtype::F6E2M3 => seq![70u8, 54u8, 95u8, 69u8, 50u8, 77u8, 51u8],
        Dtype::F6E3M2 => seq![70u8, 54u8, 95u8, 69u8, 51u8, 77u8, 50u8],
        Dtype::U8 => seq![85u8, 56u8],
        Dtype::I8 => seq![73u8, 56u8],
        Dtype::F8E5M2 => seq![70u8, 56u8, 95u8, 69u8, 53u8, 77u8, 50u8],
        Dtype::F8E4M3 => seq![70u8, 56u8, 95u8, 69u8, 52u8, 77u8, 51u8],
        Dtype::F8E8M0 => seq![70u8, 56u8, 95u8, 69u8, 56u8, 77u8, 48u8],
        Dtype::I16 => seq![73u8, 49u8, 54u8],
        Dtype::U16 => seq![85u8, 49u8, 54u8],
        Dtype::F16 => seq![70u8, 49u8, 54u8],
        Dtype::BF16 => seq![66u8, 70u8, 49u8, 54u8],
        Dtype::I32 => seq![73u8, 51u8, 50u8],
        Dtype::U32 => seq![85u8, 51u8, 50u8],
        Dtype::F32 => seq![70u8, 51u8, 50u8],
        Dtype::F64 => seq![70u8, 54u8, 52u8],
        Dtype::I64 => seq![73u8, 54u8, 52u8],
        Dtype::U64 => seq![85u8, 54u8, 52u8],
    }
}

/// The 8-byte little-endian rendering of a length below 2^64.
pub open spec fn le8(n: nat) -> Seq<u8>
    recommends
        n < 18446744073709551616,
{
    seq![
        (n % 256) as u8,
        ((n / 256) % 256) as u8,
        ((n / 65536) % 256) as u8,
        ((n / 16777216) % 256) as u8,
        ((n / 4294967296) % 256) as u8,
        ((n / 1099511627776) % 256) as u8,
        ((n / 281474976710656) % 256) as u8,
        ((n / 72057594037927936) % 256) as u8,
    ]
}

/// Appends the decimal digits of `n`.
pub fn emit_dec(out: &mut Vec<u8>, n: usize)
    ensures
        final(out)@ == old(out)@ + dec_digits(n as nat),
    decreases n,
{
    if n < 10 {
        out.push(48 + (n as u8));
        assert(final(out)@ =~= old(out)@ + dec_digits(n as nat));
    } else {
        emit_dec(out, n / 10);
        out.push(48 + ((n % 10) as u8));
        assert(final(out)@ =~= old(out)@ + dec_digits(n as nat));
    }
}

/// Appends the escape of one byte.
fn emit_esc_byte(out: &mut Vec<u8>, b: u8)
    ensures
        final(out)@ == old(out)@ + esc_byte(b),
{
    if b == 34 {
        out.push(92);
        out.push(34);
        assert(final(out)@ =~= old(out)@ + esc_byte(b));
    } else if b == 92 {
        out.push(92);
        out.push(92);
        assert(final(out)@ =~= old(out)@ + esc_byte(b));
    } else if b == 8 {
        out.push(92);
        out.push(98);
        assert(final(out)@ =~= old(out)@ + esc_byte(b));
    } else if b == 9 {
        out.push(92);
        out.push(116);
        assert(final(out)@ =~= old(out)@ + esc_byte(b));
    } else if b == 10 {
        out.push(92);
        out.push(110);
        assert(final(out)@ =~= old(out)@ + esc_byte(b));
    } else if b == 12 {
        out.push(92);
        out.push(102);
        assert(final(out)@ =~= old(out)@ + esc_byte(b));
    } else if b == 13 {
        out.push(92);
        out.push(114);
        assert(final(out)@ =~= old(out)@ + esc_byte(b));
    } else if b < 32 {
        out.push(92);
        out.push(117);
        out.push(48);
        out.push(48);
        let hi = b / 16;
        let lo = b % 16;
        out.push(if hi < 10 {
            48 + hi
        } else {
            87 + hi
        });
        out.push(if lo < 10 {
            48 + lo
        } else {
            87 + lo
        });
        assert(final(out)@ =~= old(out)@ + esc_byte(b));
    } else {
        out.push(b);
        assert(final(out)@ =~= old(out)@ + esc_byte(b));
    }
}

/// Appends the escaped form of a byte string (without quotes).
#[verifier::loop_isolation(false)]
pub fn emit_escaped(out: &mut Vec<u8>, s: &Vec<u8>)
    ensures
        final(out)@ == old(out)@ + esc(s@),
{
    let ghost base = out@;
    let n = s.len();
    let mut i: usize = 0;
    proof {
        assert(s@.take(0) =~= Seq::<u8>::empty());
        assert(out@ =~= base + esc(s@.take(0)));
    }
    while i < n
        invariant
            i <= n,
            n == s@.len(),
            out@ == base + esc(s@.take(i as int)),
        decreases n - i,
    {
        emit_esc_byte(out, s[i]);
        proof {
            assert(s@.take(i + 1) =~= s@.take(i as int).push(s@[i as int]));
            lemma_esc_push(s@.take(i as int), s@[i as int]);
            assert(out@ =~= base + esc(s@.take(i + 1)));
        }
        i += 1;
    }
    proof {
        assert(s@.take(n as int) =~= s@);
    }
}

/// Appends a complete JSON string literal for a byte string.
pub fn emit_quoted(out: &mut Vec<u8>, s: &Vec<u8>)
    ensures
        final(out)@ == old(out)@ + quoted(s@),
{
    out.push(34);
    emit_escaped(out, s);
    out.push(34);
    assert(final(out)@ =~= old(out)@ + quoted(s@));
}

/// Appends the header name of a dtype (without quotes).
pub fn emit_dtype_name(out: &mut Vec<u8>, d: Dtype)
    ensures
        final(out)@ == old(out)@ + dtype_name_bytes(d),
{
    match d {
        Dtype::BOOL => {
            out.push(66);
            out.push(79);
            out.push(79);
            out.push(76);
        }
        Dtype::F4 => {
            out.push(70);
            out.push(52);
        }
        Dtype::F6E2M3 => {
            out.push(70);
            out.push(54);
            out.push(95);
            out.push(69);
            out.push(50);
            out.push(77);
            out.push(51);
        }
        Dtype::F6E3M2 => {
            out.push(70);
            out.push(54);
            out.push(95);
            out.push(69);
            out.push(51);
            out.push(77);
            out.push(50);
        }
        Dtype::U8 => {
            out.push(85);
            out.push(56);
        }
        Dtype::I8 => {
            out.push(73);
            out.push(56);
        }
        Dtype::F8E5M2 => {
            out.push(70);
            out.push(56);
            out.push(95);
            out.push(69);
            out.push(53);
            out.push(77);
            out.push(50);
        }
        Dtype::F8E4M3 => {
            out.push(70);
            out.push(56);
            out.push(95);
            out.push(69);
            out.push(52);
            out.push(77);
            out.push(51);
        }
        Dtype::F8E8M0 => {
            out.push(70);
            out.push(56);
            out.push(95);
            out.push(69);
            out.push(56);
            out.push(77);
            out.push(48);
        }
        Dtype::I16 => {
            out.push(73);
            out.push(49);
            out.push(54);
        }
        Dtype::U16 => {
            out.push(85);
            out.push(49);
            out.push(54);
        }
        Dtype::F16 => {
            out.push(70);
            out.push(49);
            out.push(54);
        }
        Dtype::BF16 => {
            out.push(66);
            out.push(70);
            out.push(49);
            out.push(54);
        }
        Dtype::I32 => {
            out.push(73);
            out.push(51);
            out.push(50);
        }
        Dtype::U32 => {
            out.push(85);
            out.push(51);
            out.push(50);
        }
        Dtype::F32 => {
            out.push(70);
            out.push(51);
            out.push(50);
        }
        Dtype::F64 => {
            out.push(70);
            out.push(54);
            out.push(52);
        }
        Dtype::I64 => {
            out.push(73);
            out.push(54);
            out.push(52);
        }
        Dtype::U64 => {
            out.push(85);
            out.push(54);
            out.push(52);
        }
    }
    assert(final(out)@ =~= old(out)@ + dtype_name_bytes(d));
}

/// Appends the 8-byte little-endian rendering of `n`.
pub fn emit_le8(out: &mut Vec<u8>, n: u64)
    ensures
        final(out)@ == old(out)@ + le8(n as nat),
{
    out.push((n % 256) as u8);
    out.push(((n / 256) % 256) as u8);
    out.push(((n / 65536) % 256) as u8);
    out.push(((n / 16777216) % 256) as u8);
    out.push(((n / 4294967296) % 256) as u8);
    out.push(((n / 1099511627776) % 256) as u8);
    out.push(((n / 281474976710656) % 256) as u8);
    out.push(((n / 72057594037927936) % 256) as u8);
    assert(final(out)@ =~= old(out)@ + le8(n as nat));
}

} // verus!
