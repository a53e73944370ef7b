//! One sub-file of an archive.

use vstd::prelude::*;

verus! {

/// A sub-file stored in an archive: where its bytes are, the hash of its
/// name, and its name where it is known.
#[derive(Debug)]
pub struct FarcFile {
    /// The offset of the sub-file from the start of the archive.
    pub start: u32,
    /// The length of the sub-file.
    pub length: u32,
    /// The CRC-32 of the name of the sub-file.
    pub name_hash: u32,
    /// The name of the sub-file, where it is known.
    pub name: Option<String>,
}

/// What a [`FarcFile`] holds, its name as a sequence of characters.
pub struct FarcFileView {
    pub start: u32,
    pub length: u32,
    pub name_hash: u32,
    pub name: Option<Seq<char>>,
}

impl View for FarcFile {
    type V = FarcFileView;

    open spec fn view(&self) -> FarcFileView {
        FarcFileView {
            start: self.start,
            length: self.length,
            name_hash: self.name_hash,
            name: match self.name {
                Some(name) => Some(name@),
                None => None,
            },
        }
    }
}

impl Clone for FarcFile {
    fn clone(&self) -> (file: Self)
        ensures
            file@ == self@,
    {
        FarcFile {
            start: self.start,
            length: self.length,
            name_hash: self.name_hash,
            name: match &self.name {
                Some(name) => Some(name.clone()),
                None => None,
            },
        }
    }
}

impl FarcFile {
    /// A sub-file record with the given fields.
    pub fn new(start: u32, length: u32, name_hash: u32, name: Option<String>) -> (file: Self)
        ensures
            file.start == start,
            file.length == length,
            file.name_hash == name_hash,
            file.name == name,
    {
        Self { start, length, name_hash, name }
    }
}

} // verus!
