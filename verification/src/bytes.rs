//! Little-endian integers in byte sequences, and alignment padding.

use byteorder::{ByteOrder, LittleEndian};
use vstd::prelude::*;
use vstd::slice::slice_subrange;

verus! {

/// The four bytes of `v`, least significant first.
pub open spec fn u32_le_bytes(v: u32) -> Seq<u8> {
    seq![
        (v % 256) as u8,
        (v / 256 % 256) as u8,
        (v / 65536 % 256) as u8,
        (v / 16777216) as u8,
    ]
}

/// The integer whose little-endian bytes are the first four of `b`.
pub open spec fn u32_from_le(b: Seq<u8>) -> u32
    recommends
        b.len() >= 4,
{
    (b[0] + b[1] * 256 + b[2] * 65536 + b[3] * 16777216) as u32
}

/// The integer whose little-endian bytes are the first two of `b`.
pub open spec fn u16_from_le(b: Seq<u8>) -> u16
    recommends
        b.len() >= 2,
{
    (b[0] + b[1] * 256) as u16
}

/// The two bytes of `v`, least significant first.
pub open spec fn u16_le_bytes(v: u16) -> Seq<u8> {
    seq![(v % 256) as u8, (v / 256) as u8]
}

/// The little-endian `u32` stored at `pos` in `data`, if four bytes are there.
pub open spec fn spec_read_u32(data: Seq<u8>, pos: int) -> Option<u32> {
    if 0 <= pos && pos + 4 <= data.len() {
        Some(u32_from_le(data.subrange(pos, pos + 4)))
    } else {
        None
    }
}

/// The little-endian `u16` stored at `pos` in `data`, if two bytes are there.
pub open spec fn spec_read_u16(data: Seq<u8>, pos: int) -> Option<u16> {
    if 0 <= pos && pos + 2 <= data.len() {
        Some(u16_from_le(data.subrange(pos, pos + 2)))
    } else {
        None
    }
}

/// The number of bytes that bring `len` up to the next multiple of `align`.
pub open spec fn padding_to(len: int, align: int) -> int
    recommends
        len >= 0,
        align > 0,
{
    if len % align == 0 {
        0
    } else {
        align - len % align
    }
}

/// `n` zero bytes.
pub open spec fn zeros(n: int) -> Seq<u8> {
    Seq::new(
        if n >= 0 {
            n as nat
        } else {
            0
        },
        |i: int| 0u8,
    )
}

/// `b` followed by the zero bytes that bring its length to a multiple of `align`.
pub open spec fn padded(b: Seq<u8>, align: int) -> Seq<u8>
    recommends
        align > 0,
{
    b + zeros(padding_to(b.len() as int, align))
}

/// Reading back what `u32_le_bytes` wrote gives the value again.
pub proof fn lemma_u32_le_round_trip(v: u32)
    ensures
        u32_le_bytes(v).len() == 4,
        u32_from_le(u32_le_bytes(v)) == v,
{
}

/// Calls `byteorder::ByteOrder::read_u32` of `LittleEndian`, which decodes the
/// first four bytes of the buffer and panics on a shorter one.
#[verifier::external_body]
fn le_read_u32(buf: &[u8]) -> (v: u32)
    requires
        buf@.len() >= 4,
    ensures
        v == u32_from_le(buf@),
{
    LittleEndian::read_u32(buf)
}

/// Calls `byteorder::ByteOrder::read_u16` of `LittleEndian`, which decodes the
/// first two bytes of the buffer and panics on a shorter one.
#[verifier::external_body]
fn le_read_u16(buf: &[u8]) -> (v: u16)
    requires
        buf@.len() >= 2,
    ensures
        v == u16_from_le(buf@),
{
    LittleEndian::read_u16(buf)
}

/// Calls `byteorder::ByteOrder::write_u32` of `LittleEndian` on a buffer of
/// four bytes, which it fills with the bytes of `v`, least significant first.
#[verifier::external_body]
fn le_write_u32(v: u32) -> (b: [u8; 4])
    ensures
        b@ == u32_le_bytes(v),
{
    let mut b = [0u8; 4];
    LittleEndian::write_u32(&mut b, v);
    b
}

/// Reads the little-endian `u32` at `pos`, or `None` where fewer than four
/// bytes are left there.
pub fn read_u32_at(data: &[u8], pos: usize) -> (r: Option<u32>)
    ensures
        r == spec_read_u32(data@, pos as int),
{
    if pos <= data.len() && data.len() - pos >= 4 {
        Some(le_read_u32(slice_subrange(data, pos, pos + 4)))
    } else {
        None
    }
}

/// Reads the little-endian `u16` at `pos`, or `None` where fewer than two
/// bytes are left there.
pub fn read_u16_at(data: &[u8], pos: usize) -> (r: Option<u16>)
    ensures
        r == spec_read_u16(data@, pos as int),
{
    if pos <= data.len() && data.len() - pos >= 2 {
        Some(le_read_u16(slice_subrange(data, pos, pos + 2)))
    } else {
        None
    }
}

/// Appends the four little-endian bytes of `v`.
pub fn push_u32_le(out: &mut Vec<u8>, v: u32)
    ensures
        final(out)@ == old(out)@ + u32_le_bytes(v),
{
    let b = le_write_u32(v);
    out.push(b[0]);
    out.push(b[1]);
    out.push(b[2]);
    out.push(b[3]);
    assert(out@ =~= old(out)@ + u32_le_bytes(v));
}

/// Appends `n` zero bytes.
pub fn push_zeros(out: &mut Vec<u8>, n: usize)
    ensures
        final(out)@ == old(out)@ + zeros(n as int),
{
    let mut i: usize = 0;
    while i < n
        invariant
            i <= n,
            out@ == old(out)@ + zeros(i as int),
        decreases n - i,
    {
        out.push(0u8);
        i += 1;
        assert(out@ =~= old(out)@ + zeros(i as int));
    }
}

/// Appends zero bytes until the length is a multiple of 16.
pub fn pad_to_16(out: &mut Vec<u8>)
    ensures
        final(out)@ == padded(old(out)@, 16),
        final(out)@.len() % 16 == 0,
{
    let r: usize = out.len() % 16;
    if r != 0 {
        push_zeros(out, 16 - r);
    } else {
        assert(out@ =~= old(out)@ + zeros(0));
    }
}

} // verus!
