//! The SIR0 container that carries the file table, as the `pmd_sir0` crate
//! reads and writes it.

use crate::bytes::u32_le_bytes;
use pmd_sir0::{write_sir0_footer, write_sir0_header, Sir0, Sir0Error, Sir0WriteFooterError};
use std::io::Cursor;
use vstd::prelude::*;

verus! {

/// `pmd_sir0::Sir0Error`, handed on as it comes: nothing is said of what it
/// holds.
#[verifier::external_type_specification]
#[verifier::external_body]
pub struct ExSir0Error(Sir0Error);

/// `pmd_sir0::Sir0WriteFooterError`, handed on as it comes: nothing is said
/// of what it holds.
#[verifier::external_type_specification]
#[verifier::external_body]
pub struct ExSir0WriteFooterError(Sir0WriteFooterError);

/// The content header that `pmd_sir0::Sir0::new` finds in a SIR0 file of these
/// bytes, or `None` where it rejects them.
pub uninterp spec fn sir0_content_header(file: Seq<u8>) -> Option<Seq<u8>>;

/// The footer that `pmd_sir0::write_sir0_footer` writes for these pointer
/// positions, or `None` where it rejects them.
pub uninterp spec fn sir0_footer_bytes(pointers: Seq<u32>) -> Option<Seq<u8>>;

/// Whether no position is smaller than the one before it.
pub open spec fn non_decreasing(pointers: Seq<u32>) -> bool {
    forall|i: int, j: int| 0 <= i <= j < pointers.len() ==> pointers[i] <= pointers[j]
}

/// The twelve bytes at the start of a SIR0 file: the magic, then the position
/// of the content header and that of the footer.
pub open spec fn sir0_header_bytes(header_position: u32, footer_position: u32) -> Seq<u8> {
    seq![0x53u8, 0x49u8, 0x52u8, 0x30u8] + u32_le_bytes(header_position) + u32_le_bytes(
        footer_position,
    )
}

/// Calls `pmd_sir0::Sir0::new` on the bytes and `Sir0::get_header` on what it
/// returns. The result is named, not described: nothing here says which
/// bytes are accepted.
#[verifier::external_body]
pub(crate) fn read_sir0_content_header(file: &[u8]) -> (r: Result<Vec<u8>, Sir0Error>)
    ensures
        match r {
            Ok(header) => sir0_content_header(file@) == Some(header@),
            Err(_) => sir0_content_header(file@) is None,
        },
{
    let sir0 = Sir0::new(Cursor::new(file))?;
    Ok(sir0.get_header().clone())
}

/// Calls `pmd_sir0::write_sir0_footer` with an empty vector as the sink. The
/// bytes are named, not described. The contract adds what the function's
/// source shows of failure: the only error apart from one of the sink, which a
/// vector does not give, is a position smaller than the one before it.
#[verifier::external_body]
pub(crate) fn write_footer(pointers: &[u32]) -> (r: Result<Vec<u8>, Sir0WriteFooterError>)
    ensures
        match r {
            Ok(footer) => sir0_footer_bytes(pointers@) == Some(footer@),
            Err(_) => sir0_footer_bytes(pointers@) is None,
        },
        non_decreasing(pointers@) ==> r is Ok,
{
    let mut footer: Vec<u8> = Vec::new();
    write_sir0_footer(&mut footer, pointers)?;
    Ok(footer)
}

/// Calls `pmd_sir0::write_sir0_header` with an empty vector as the sink: it
/// writes the magic and the two positions, little-endian. A vector takes every
/// write, so the result of the call holds nothing.
#[verifier::external_body]
pub(crate) fn write_header(header_position: u32, footer_position: u32) -> (header: Vec<u8>)
    ensures
        header@ == sir0_header_bytes(header_position, footer_position),
{
    let mut header: Vec<u8> = Vec::new();
    let _ = write_sir0_header(&mut header, header_position, footer_position);
    header
}

} // verus!
