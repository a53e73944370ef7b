//! UTF-16 as the archive stores names: code units, two little-endian bytes each.

use crate::bytes::{read_u16_at, spec_read_u16, u16_le_bytes};
use vstd::prelude::*;

verus! {

/// The UTF-16 code units of one character: itself below U+10000, a surrogate
/// pair above.
pub open spec fn char_utf16(c: char) -> Seq<u16> {
    let v = c as u32;
    if v < 0x10000 {
        seq![v as u16]
    } else {
        seq![(0xD800 + (v - 0x10000) / 0x400) as u16, (0xDC00 + (v - 0x10000) % 0x400) as u16]
    }
}

/// The UTF-16 code units of a string, without byte-order mark or terminator.
pub open spec fn utf16_units(s: Seq<char>) -> Seq<u16>
    decreases s.len(),
{
    if s.len() == 0 {
        Seq::empty()
    } else {
        utf16_units(s.drop_last()) + char_utf16(s.last())
    }
}

/// Each code unit as two bytes, least significant first.
pub open spec fn units_le_bytes(units: Seq<u16>) -> Seq<u8>
    decreases units.len(),
{
    if units.len() == 0 {
        Seq::empty()
    } else {
        units_le_bytes(units.drop_last()) + u16_le_bytes(units.last())
    }
}

/// The UTF-16LE encoding of a string.
pub open spec fn utf16_le_bytes(s: Seq<char>) -> Seq<u8> {
    units_le_bytes(utf16_units(s))
}

/// The code units stored from `pos` up to, and without, the first zero unit;
/// `None` where the data ends before a zero unit.
pub open spec fn nul_terminated_units(data: Seq<u8>, pos: int) -> Option<Seq<u16>>
    decreases data.len() - pos,
{
    match spec_read_u16(data, pos) {
        None => None,
        Some(unit) => if unit == 0 {
            Some(Seq::empty())
        } else {
            match nul_terminated_units(data, pos + 2) {
                Some(rest) => Some(seq![unit] + rest),
                None => None,
            }
        },
    }
}

/// Encoding distributes over appending one more code unit.
pub proof fn lemma_units_le_bytes_push(units: Seq<u16>, unit: u16)
    ensures
        units_le_bytes(units.push(unit)) == units_le_bytes(units) + u16_le_bytes(unit),
{
    assert(units.push(unit).drop_last() =~= units);
}

/// Encoding distributes over appending a block of code units.
pub proof fn lemma_units_le_bytes_concat(a: Seq<u16>, b: Seq<u16>)
    ensures
        units_le_bytes(a + b) == units_le_bytes(a) + units_le_bytes(b),
    decreases b.len(),
{
    if b.len() == 0 {
        assert(a + b =~= a);
        assert(units_le_bytes(a) + units_le_bytes(b) =~= units_le_bytes(a));
    } else {
        lemma_units_le_bytes_concat(a, b.drop_last());
        assert((a + b).drop_last() =~= a + b.drop_last());
        assert((a + b).last() == b.last());
        assert(units_le_bytes(a) + (units_le_bytes(b.drop_last()) + u16_le_bytes(b.last()))
            =~= (units_le_bytes(a) + units_le_bytes(b.drop_last())) + u16_le_bytes(b.last()));
    }
}

/// The code units of one character: a single unit outside the surrogate
/// range, or a high and a low surrogate from which the character is found
/// again.
proof fn lemma_char_utf16(c: char)
    ensures
        (c as u32) < 0x10000 ==> char_utf16(c).len() == 1 && char_utf16(c)[0] == c as u32 && !(
        0xD800 <= char_utf16(c)[0] <= 0xDFFF),
        (c as u32) >= 0x10000 ==> char_utf16(c).len() == 2 && 0xD800 <= char_utf16(c)[0] <= 0xDBFF
            && 0xDC00 <= char_utf16(c)[1] <= 0xDFFF && c as u32 == 0x10000 + (char_utf16(c)[0]
            - 0xD800) * 0x400 + (char_utf16(c)[1] - 0xDC00),
{
}

/// No two characters have the same code units, and the last code unit tells
/// how many there are.
proof fn lemma_char_utf16_injective(c: char, d: char)
    ensures
        char_utf16(c) == char_utf16(d) ==> c == d,
        char_utf16(c).last() == char_utf16(d).last() ==> char_utf16(c).len() == char_utf16(d).len(),
{
    lemma_char_utf16(c);
    lemma_char_utf16(d);
    if char_utf16(c) == char_utf16(d) {
        assert(char_utf16(c)[0] == char_utf16(d)[0]);
        if c as u32 >= 0x10000 {
            assert(char_utf16(c)[1] == char_utf16(d)[1]);
        }
        assert(c as u32 == d as u32);
    }
}

/// No two strings have the same UTF-16 code units.
pub proof fn lemma_utf16_units_injective(a: Seq<char>, b: Seq<char>)
    requires
        utf16_units(a) == utf16_units(b),
    ensures
        a == b,
    decreases a.len(),
{
    if a.len() == 0 || b.len() == 0 {
        if a.len() > 0 {
            lemma_char_utf16(a.last());
            assert(utf16_units(a).len() == utf16_units(a.drop_last()).len() + char_utf16(
                a.last(),
            ).len());
        }
        if b.len() > 0 {
            lemma_char_utf16(b.last());
            assert(utf16_units(b).len() == utf16_units(b.drop_last()).len() + char_utf16(
                b.last(),
            ).len());
        }
        assert(a =~= b);
    } else {
        let head_a = utf16_units(a.drop_last());
        let head_b = utf16_units(b.drop_last());
        let tail_a = char_utf16(a.last());
        let tail_b = char_utf16(b.last());
        lemma_char_utf16(a.last());
        lemma_char_utf16(b.last());
        lemma_char_utf16_injective(a.last(), b.last());
        assert((head_a + tail_a).last() == tail_a.last());
        assert((head_b + tail_b).last() == tail_b.last());
        assert(tail_a.len() == tail_b.len());
        assert(head_a.len() == head_b.len());
        assert(head_a =~= (head_a + tail_a).subrange(0, head_a.len() as int));
        assert(head_b =~= (head_b + tail_b).subrange(0, head_b.len() as int));
        assert(tail_a =~= (head_a + tail_a).subrange(
            head_a.len() as int,
            (head_a + tail_a).len() as int,
        ));
        assert(tail_b =~= (head_b + tail_b).subrange(
            head_b.len() as int,
            (head_b + tail_b).len() as int,
        ));
        lemma_utf16_units_injective(a.drop_last(), b.drop_last());
        assert(a =~= a.drop_last().push(a.last()));
        assert(b =~= b.drop_last().push(b.last()));
    }
}

/// Whether the code units are the encoding of some string.
pub open spec fn valid_utf16(units: Seq<u16>) -> bool {
    exists|s: Seq<char>| utf16_units(s) == units
}

/// The string that the code units encode.
pub open spec fn decoded_utf16(units: Seq<u16>) -> Seq<char>
    recommends
        valid_utf16(units),
{
    choose|s: Seq<char>| utf16_units(s) == units
}

/// Appends the little-endian bytes of the code units of `c`.
fn push_char_utf16(out: &mut Vec<u8>, c: char)
    ensures
        final(out)@ == old(out)@ + units_le_bytes(char_utf16(c)),
{
    let v: u32 = c as u32;
    if v < 0x10000 {
        let unit: u16 = v as u16;
        out.push((unit % 256) as u8);
        out.push((unit / 256) as u8);
        proof {
            lemma_units_le_bytes_push(Seq::empty(), unit);
            assert(Seq::<u16>::empty().push(unit) =~= char_utf16(c));
            assert(out@ =~= old(out)@ + units_le_bytes(char_utf16(c)));
        }
    } else {
        let w: u32 = v - 0x10000;
        let high: u16 = (0xD800 + w / 0x400) as u16;
        let low: u16 = (0xDC00 + w % 0x400) as u16;
        out.push((high % 256) as u8);
        out.push((high / 256) as u8);
        out.push((low % 256) as u8);
        out.push((low / 256) as u8);
        proof {
            lemma_units_le_bytes_push(Seq::empty(), high);
            lemma_units_le_bytes_push(seq![high], low);
            assert(Seq::<u16>::empty().push(high) =~= seq![high]);
            assert(seq![high].push(low) =~= char_utf16(c));
            assert(out@ =~= old(out)@ + units_le_bytes(char_utf16(c)));
        }
    }
}

/// Encodes a string as UTF-16LE bytes, without byte-order mark or terminator.
pub fn string_to_utf16(to_transform: &str) -> (bytes: Vec<u8>)
    ensures
        bytes@ == utf16_le_bytes(to_transform@),
{
    let mut out: Vec<u8> = Vec::new();
    let n: usize = to_transform.unicode_len();
    let mut i: usize = 0;
    while i < n
        invariant
            n == to_transform@.len(),
            i <= n,
            out@ == utf16_le_bytes(to_transform@.take(i as int)),
        decreases n - i,
    {
        let c = to_transform.get_char(i);
        push_char_utf16(&mut out, c);
        proof {
            let before = to_transform@.take(i as int);
            let after = to_transform@.take(i + 1);
            assert(after.drop_last() =~= before);
            assert(after.last() == c);
            lemma_units_le_bytes_concat(utf16_units(before), char_utf16(c));
        }
        i += 1;
    }
    proof {
        assert(to_transform@.take(n as int) =~= to_transform@);
    }
    out
}

/// Calls `String::from_utf16` of std, which decodes a slice of UTF-16 code
/// units and fails where the slice is not the encoding of any string.
#[verifier::external_body]
fn string_from_utf16(units: &[u16]) -> (r: Option<String>)
    ensures
        match r {
            Some(s) => utf16_units(s@) == units@,
            None => !valid_utf16(units@),
        },
{
    String::from_utf16(units).ok()
}

/// What reading a zero-terminated UTF-16LE string can give.
#[derive(Debug, PartialEq, Eq)]
pub enum Utf16Read {
    /// The decoded string.
    Text(String),
    /// The data ended before a zero code unit.
    Truncated,
    /// The code units are not valid UTF-16.
    Invalid,
}

/// What a [`Utf16Read`] holds, the string as a sequence of characters.
pub enum Utf16ReadView {
    Text(Seq<char>),
    Truncated,
    Invalid,
}

impl View for Utf16Read {
    type V = Utf16ReadView;

    open spec fn view(&self) -> Utf16ReadView {
        match self {
            Utf16Read::Text(s) => Utf16ReadView::Text(s@),
            Utf16Read::Truncated => Utf16ReadView::Truncated,
            Utf16Read::Invalid => Utf16ReadView::Invalid,
        }
    }
}

/// What reading a zero-terminated UTF-16LE string at `pos` of `data` gives.
pub open spec fn utf16_read(data: Seq<u8>, pos: int) -> Utf16ReadView {
    match nul_terminated_units(data, pos) {
        None => Utf16ReadView::Truncated,
        Some(units) => if valid_utf16(units) {
            Utf16ReadView::Text(decoded_utf16(units))
        } else {
            Utf16ReadView::Invalid
        },
    }
}

/// Reads the UTF-16LE string that starts at `pos` and ends before the first
/// zero code unit.
pub fn read_null_terminated_utf16_string(data: &[u8], pos: usize) -> (r: Utf16Read)
    ensures
        r@ == utf16_read(data@, pos as int),
{
    let mut buffer: Vec<u16> = Vec::new();
    let mut at: usize = pos;
    let len: usize = data.len();
    loop
        invariant
            pos <= at,
            len == data@.len(),
            match nul_terminated_units(data@, at as int) {
                None => nul_terminated_units(data@, pos as int) is None,
                Some(rest) => nul_terminated_units(data@, pos as int) == Some(buffer@ + rest),
            },
        ensures
            nul_terminated_units(data@, pos as int) == Some(buffer@),
        decreases data@.len() + 2 - at,
    {
        match read_u16_at(data, at) {
            None => {
                return Utf16Read::Truncated;
            },
            Some(unit) => {
                assert(at + 2 <= data@.len());
                if unit == 0 {
                    proof {
                        assert(buffer@ + Seq::<u16>::empty() =~= buffer@);
                    }
                    break ;
                }
                proof {
                    let rest = nul_terminated_units(data@, at + 2);
                    if rest is Some {
                        assert(buffer@ + (seq![unit] + rest->0) =~= buffer@.push(unit) + rest->0);
                    }
                }
                buffer.push(unit);
                at += 2;
            },
        }
    }
    match string_from_utf16(buffer.as_slice()) {
        Some(s) => {
            proof {
                lemma_utf16_units_injective(s@, decoded_utf16(buffer@));
            }
            Utf16Read::Text(s)
        },
        None => Utf16Read::Invalid,
    }
}

} // verus!
