//! The outer header of an archive.

use crate::bytes::{read_u32_at, spec_read_u32};
use vstd::prelude::*;

verus! {

/// Why the outer header of an archive could not be read.
#[derive(Debug, Clone, Copy, PartialEq, Eq)]
pub enum ReadHeaderError {
    /// The data ends inside the header.
    UnexpectedEof,
    /// The data does not start with the magic `FARC`.
    BadMagic,
    /// The type of the SIR0 container is neither 4 nor 5.
    NoVariantMatch(u32),
}

/// The outer header of an archive.
#[derive(Debug, Clone, Copy, PartialEq, Eq)]
pub struct FarcHeader {
    /// The type of the SIR0 container, 4 or 5.
    pub sir0_type: u32,
    /// Where the SIR0 container starts in the archive.
    pub sir0_offset: u32,
    /// The length of the SIR0 container.
    pub sir0_length: u32,
    /// Where the content of the sub-files starts in the archive.
    pub all_data_offset: u32,
    /// The declared length of the content of the sub-files.
    pub all_data_length: u32,
}

/// The magic at the start of an archive, `FARC`.
pub open spec fn farc_magic() -> Seq<u8> {
    seq![0x46u8, 0x41u8, 0x52u8, 0x43u8]
}

/// The outer header that the data starts with: the magic, 28 bytes that are
/// not read, then five little-endian fields. The data is read front to back,
/// so a wrong magic or type is reported before a later end of the data.
pub open spec fn spec_parse_header(data: Seq<u8>) -> Result<FarcHeader, ReadHeaderError> {
    if data.len() < 4 {
        Err(ReadHeaderError::UnexpectedEof)
    } else if data.subrange(0, 4) != farc_magic() {
        Err(ReadHeaderError::BadMagic)
    } else if data.len() < 0x24 {
        Err(ReadHeaderError::UnexpectedEof)
    } else if spec_read_u32(data, 0x20)->0 != 4 && spec_read_u32(data, 0x20)->0 != 5 {
        Err(ReadHeaderError::NoVariantMatch(spec_read_u32(data, 0x20)->0))
    } else if data.len() < 0x34 {
        Err(ReadHeaderError::UnexpectedEof)
    } else {
        Ok(
            FarcHeader {
                sir0_type: spec_read_u32(data, 0x20)->0,
                sir0_offset: spec_read_u32(data, 0x24)->0,
                sir0_length: spec_read_u32(data, 0x28)->0,
                all_data_offset: spec_read_u32(data, 0x2C)->0,
                all_data_length: spec_read_u32(data, 0x30)->0,
            },
        )
    }
}

impl FarcHeader {
    /// Reads the outer header at the start of `data`.
    pub fn parse(data: &[u8]) -> (r: Result<FarcHeader, ReadHeaderError>)
        ensures
            r == spec_parse_header(data@),
    {
        if data.len() < 4 {
            return Err(ReadHeaderError::UnexpectedEof);
        }
        if data[0] != 0x46 || data[1] != 0x41 || data[2] != 0x52 || data[3] != 0x43 {
            proof {
                let start = data@.subrange(0, 4);
                assert(start[0] == data@[0] && start[1] == data@[1] && start[2] == data@[2]
                    && start[3] == data@[3]);
            }
            return Err(ReadHeaderError::BadMagic);
        }
        assert(data@.subrange(0, 4) =~= farc_magic());
        let sir0_type = match read_u32_at(data, 0x20) {
            Some(value) => value,
            None => {
                return Err(ReadHeaderError::UnexpectedEof);
            },
        };
        if sir0_type != 4 && sir0_type != 5 {
            return Err(ReadHeaderError::NoVariantMatch(sir0_type));
        }
        if data.len() < 0x34 {
            return Err(ReadHeaderError::UnexpectedEof);
        }
        let sir0_offset = read_u32_at(data, 0x24).unwrap();
        let sir0_length = read_u32_at(data, 0x28).unwrap();
        let all_data_offset = read_u32_at(data, 0x2C).unwrap();
        let all_data_length = read_u32_at(data, 0x30).unwrap();
        Ok(FarcHeader { sir0_type, sir0_offset, sir0_length, all_data_offset, all_data_length })
    }
}

} // verus!
