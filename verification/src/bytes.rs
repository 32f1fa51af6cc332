//! Little-endian integers and decimal digits inside byte strings.
use crate::resource::all_ascii;
use vstd::prelude::*;

verus! {

/// The four little-endian bytes of a 32-bit value.
pub open spec fn u32_le(value: int) -> Seq<u8> {
    seq![
        (value % 256) as u8,
        ((value / 256) % 256) as u8,
        ((value / 65536) % 256) as u8,
        ((value / 16777216) % 256) as u8,
    ]
}

/// The two little-endian bytes of a 16-bit value.
pub open spec fn u16_le(value: int) -> Seq<u8> {
    seq![(value % 256) as u8, ((value / 256) % 256) as u8]
}

/// The 32-bit little-endian value stored at `offset`.
pub open spec fn read_u32_le(bytes: Seq<u8>, offset: int) -> int {
    bytes[offset] as int + bytes[offset + 1] as int * 256 + bytes[offset + 2] as int * 65536
        + bytes[offset + 3] as int * 16777216
}

/// The 16-bit little-endian value stored at `offset`.
pub open spec fn read_u16_le(bytes: Seq<u8>, offset: int) -> int {
    bytes[offset] as int + bytes[offset + 1] as int * 256
}

/// `n` zero bytes.
pub open spec fn zeros(n: int) -> Seq<u8> {
    Seq::new(n as nat, |i: int| 0u8)
}

pub proof fn lemma_u32_le_roundtrip(value: int, prefix: Seq<u8>, suffix: Seq<u8>)
    requires
        0 <= value <= u32::MAX,
    ensures
        read_u32_le(prefix + u32_le(value) + suffix, prefix.len() as int) == value,
        u32_le(value).len() == 4,
{
    let b = prefix + u32_le(value) + suffix;
    let p = prefix.len() as int;
    assert(b[p] == (value % 256) as u8);
    assert(b[p + 1] == ((value / 256) % 256) as u8);
    assert(b[p + 2] == ((value / 65536) % 256) as u8);
    assert(b[p + 3] == ((value / 16777216) % 256) as u8);
    assert((value % 256) + ((value / 256) % 256) * 256 + ((value / 65536) % 256) * 65536 + ((value
        / 16777216) % 256) * 16777216 == value) by (nonlinear_arith)
        requires
            0 <= value <= u32::MAX,
    ;
}

pub proof fn lemma_u16_le_roundtrip(value: int, prefix: Seq<u8>, suffix: Seq<u8>)
    requires
        0 <= value <= u16::MAX,
    ensures
        read_u16_le(prefix + u16_le(value) + suffix, prefix.len() as int) == value,
        u16_le(value).len() == 2,
{
    let b = prefix + u16_le(value) + suffix;
    let p = prefix.len() as int;
    assert(b[p] == (value % 256) as u8);
    assert(b[p + 1] == ((value / 256) % 256) as u8);
    assert((value % 256) + ((value / 256) % 256) * 256 == value) by (nonlinear_arith)
        requires
            0 <= value <= u16::MAX,
    ;
}

/// Appends the little-endian bytes of `value`.
pub fn push_u32_le(output: &mut Vec<u8>, value: u32)
    ensures
        final(output)@ == old(output)@ + u32_le(value as int),
{
    output.push((value % 256) as u8);
    output.push(((value / 256) % 256) as u8);
    output.push(((value / 65536) % 256) as u8);
    output.push(((value / 16777216) % 256) as u8);
    assert(final(output)@ =~= old(output)@ + u32_le(value as int));
}

/// Appends the little-endian bytes of `value`.
pub fn push_u16_le(output: &mut Vec<u8>, value: u16)
    ensures
        final(output)@ == old(output)@ + u16_le(value as int),
{
    output.push((value % 256) as u8);
    output.push(((value / 256) % 256) as u8);
    assert(final(output)@ =~= old(output)@ + u16_le(value as int));
}

/// Appends `count` zero bytes.
pub fn push_zeros(output: &mut Vec<u8>, count: usize)
    ensures
        final(output)@ == old(output)@ + zeros(count as int),
{
    let mut index: usize = 0;
    while index < count
        invariant
            index <= count,
            output@ == old(output)@ + zeros(index as int),
        decreases count - index,
    {
        output.push(0u8);
        index += 1;
        assert(output@ =~= old(output)@ + zeros(index as int));
    }
}

/// Reads the 32-bit little-endian value at `offset`.
pub fn little_u32(bytes: &[u8], offset: usize) -> (value: u32)
    requires
        offset + 4 <= bytes@.len(),
    ensures
        value as int == read_u32_le(bytes@, offset as int),
{
    let b0 = bytes[offset] as u32;
    let b1 = bytes[offset + 1] as u32;
    let b2 = bytes[offset + 2] as u32;
    let b3 = bytes[offset + 3] as u32;
    b0 + b1 * 256 + b2 * 65536 + b3 * 16777216
}

/// Reads the 16-bit little-endian value at `offset`.
pub fn little_u16(bytes: &[u8], offset: usize) -> (value: u16)
    requires
        offset + 2 <= bytes@.len(),
    ensures
        value as int == read_u16_le(bytes@, offset as int),
{
    let b0 = bytes[offset] as u16;
    let b1 = bytes[offset + 1] as u16;
    b0 + b1 * 256
}

/// The decimal digits of `n`, as ASCII bytes, without leading zeros.
pub open spec fn decimal_digits(n: nat) -> Seq<u8>
    decreases n,
{
    if n < 10 {
        seq![(48 + n) as u8]
    } else {
        decimal_digits(n / 10).push((48 + n % 10) as u8)
    }
}

pub proof fn lemma_decimal_digits_ascii(n: nat)
    ensures
        all_ascii(decimal_digits(n)),
    decreases n,
{
    if n >= 10 {
        lemma_decimal_digits_ascii(n / 10);
    }
}

pub fn push_decimal(output: &mut Vec<u8>, n: usize)
    ensures
        final(output)@ == old(output)@ + decimal_digits(n as nat),
    decreases n,
{
    if n >= 10 {
        push_decimal(output, n / 10);
    }
    output.push(48 + (n % 10) as u8);
    proof {
        assert(final(output)@ =~= old(output)@ + decimal_digits(n as nat));
    }
}

} // verus!
