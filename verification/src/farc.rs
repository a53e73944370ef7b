//! Parsing an archive and reading its sub-files.

use crate::farc_file::{FarcFile, FarcFileView};
use crate::farc_header::{spec_parse_header, FarcHeader, ReadHeaderError};
use crate::file_name_index::{
    lookup_hash, lookup_name, name_matches, valid_entries, with_checked_name, FileNameConflict,
    FileNameError, FileNameIndex,
};
use crate::file_table::{read_file_table, spec_read_file_table};
use crate::sir0::{read_sir0_content_header, sir0_content_header};
use pmd_sir0::Sir0Error;
use vstd::prelude::*;
use vstd::slice::slice_subrange;

verus! {

/// What can go wrong while an archive is parsed or read.
#[derive(Debug)]
pub enum FarcError {
    /// The data ended where more was to be read.
    IOerror,
    /// A range of the data was asked for that ends after the data.
    PartitionCreationError,
    /// The SIR0 codec rejected the container with the file table.
    CreateSir0Error(Sir0Error),
    /// The kind of file table is neither 0 nor 1.
    UnsuportedFat5Type(u32),
    /// No sub-file was found for this name.
    NamedFileNotFound(String),
    /// No sub-file was found for this hash.
    HashedFileNotFound(u32),
    /// A name in the archive is not valid UTF-16.
    FromUtf16Error,
    /// The outer header could not be read.
    ReadHeaderError(ReadHeaderError),
    /// The content header of the SIR0 container has fewer than 12 bytes; the
    /// field is how many it has.
    Sir0HeaderNotLongEnought(usize),
    /// The start of a sub-file does not fit in 32 bits; the fields are the
    /// two offsets whose sum it is.
    DataStartOverflow(u32, u32),
    /// Two sub-files of the archive are in conflict.
    FileNameError(FileNameError),
}

/// What a [`FarcError`] holds, names as sequences of characters and without
/// what the SIR0 codec reported.
pub enum FarcFailure {
    IOerror,
    PartitionCreationError,
    CreateSir0Error,
    UnsuportedFat5Type(u32),
    NamedFileNotFound(Seq<char>),
    HashedFileNotFound(u32),
    FromUtf16Error,
    ReadHeaderError(ReadHeaderError),
    Sir0HeaderNotLongEnought(usize),
    DataStartOverflow(u32, u32),
    FileNameError(FileNameConflict),
}

impl View for FarcError {
    type V = FarcFailure;

    open spec fn view(&self) -> FarcFailure {
        match self {
            FarcError::IOerror => FarcFailure::IOerror,
            FarcError::PartitionCreationError => FarcFailure::PartitionCreationError,
            FarcError::CreateSir0Error(_) => FarcFailure::CreateSir0Error,
            FarcError::UnsuportedFat5Type(kind) => FarcFailure::UnsuportedFat5Type(*kind),
            FarcError::NamedFileNotFound(name) => FarcFailure::NamedFileNotFound(name@),
            FarcError::HashedFileNotFound(hash) => FarcFailure::HashedFileNotFound(*hash),
            FarcError::FromUtf16Error => FarcFailure::FromUtf16Error,
            FarcError::ReadHeaderError(e) => FarcFailure::ReadHeaderError(*e),
            FarcError::Sir0HeaderNotLongEnought(len) => FarcFailure::Sir0HeaderNotLongEnought(*len),
            FarcError::DataStartOverflow(base, offset) => FarcFailure::DataStartOverflow(
                *base,
                *offset,
            ),
            FarcError::FileNameError(e) => FarcFailure::FileNameError(e@),
        }
    }
}

/// Whether the bytes of `file` lie inside data of `len` bytes.
pub open spec fn extent_in(file: FarcFileView, len: nat) -> bool {
    file.start + file.length <= len
}

/// The bytes of `file` in `data`.
pub open spec fn extent_of(data: Seq<u8>, file: FarcFileView) -> Seq<u8>
    recommends
        extent_in(file, data.len()),
{
    data.subrange(file.start as int, file.start + file.length)
}

/// The names of the entries that have a known one, in the order of the
/// entries.
pub open spec fn known_names(entries: Seq<FarcFileView>) -> Seq<Seq<char>> {
    entries.filter(|file: FarcFileView| file.name is Some).map_values(
        |file: FarcFileView| file.name->0,
    )
}

/// The hashes of the entries without a known name, in the order of the
/// entries.
pub open spec fn unknown_hashes(entries: Seq<FarcFileView>) -> Seq<u32> {
    entries.filter(|file: FarcFileView| file.name is None).map_values(
        |file: FarcFileView| file.name_hash,
    )
}

/// The hash of each entry, in the order of the entries.
pub open spec fn all_hashes(entries: Seq<FarcFileView>) -> Seq<u32> {
    entries.map_values(|file: FarcFileView| file.name_hash)
}

/// The hash and the name, where it is known, of each entry.
pub open spec fn hashes_and_names(entries: Seq<FarcFileView>) -> Seq<(u32, Option<Seq<char>>)> {
    entries.map_values(|file: FarcFileView| (file.name_hash, file.name))
}

/// The entries of the archive that `data` holds: the outer header says where
/// the SIR0 container is, the SIR0 codec finds the content header in it, and
/// the content header describes the file table.
pub open spec fn parsed_archive(data: Seq<u8>) -> Result<Seq<FarcFileView>, FarcFailure> {
    match spec_parse_header(data) {
        Err(e) => Err(FarcFailure::ReadHeaderError(e)),
        Ok(header) => if header.sir0_offset + header.sir0_length > data.len() {
            Err(FarcFailure::PartitionCreationError)
        } else {
            let sir0 = data.subrange(
                header.sir0_offset as int,
                header.sir0_offset + header.sir0_length,
            );
            match sir0_content_header(sir0) {
                None => Err(FarcFailure::CreateSir0Error),
                Some(h) => spec_read_file_table(h, sir0, header.all_data_offset),
            }
        },
    }
}

/// The entries after each of `names` was checked against them in turn.
pub open spec fn with_checked_names(entries: Seq<FarcFileView>, names: Seq<Seq<char>>) -> Seq<
    FarcFileView,
>
    decreases names.len(),
{
    if names.len() == 0 {
        entries
    } else {
        with_checked_name(with_checked_names(entries, names.drop_last()), names.last())
    }
}

/// An archive held in memory: its bytes and the index of its sub-files.
#[derive(Debug)]
pub struct Farc {
    data: Vec<u8>,
    index: FileNameIndex,
}

impl Farc {
    /// The bytes of the archive.
    pub closed spec fn data(&self) -> Seq<u8> {
        self.data@
    }

    /// The entries of the index, in the order of the file table.
    pub closed spec fn entries(&self) -> Seq<FarcFileView> {
        self.index@
    }

    /// Parses the archive that `data` holds. Either the whole file table is
    /// read and indexed, or the first thing that goes wrong is returned.
    pub fn new(data: Vec<u8>) -> (r: Result<Farc, FarcError>)
        ensures
            match parsed_archive(data@) {
                Ok(entries) => r matches Ok(farc) && farc.data() == data@ && farc.entries()
                    == entries,
                Err(failure) => r matches Err(e) && e@ == failure,
            },
    {
        let farc_header = match FarcHeader::parse(data.as_slice()) {
            Ok(header) => header,
            Err(e) => {
                return Err(FarcError::ReadHeaderError(e));
            },
        };
        let sir0_end: u64 = farc_header.sir0_offset as u64 + farc_header.sir0_length as u64;
        if sir0_end > data.len() as u64 {
            return Err(FarcError::PartitionCreationError);
        }
        let sir0 = slice_subrange(
            data.as_slice(),
            farc_header.sir0_offset as usize,
            sir0_end as usize,
        );
        let h = match read_sir0_content_header(sir0) {
            Ok(h) => h,
            Err(e) => {
                return Err(FarcError::CreateSir0Error(e));
            },
        };
        let index = match read_file_table(h.as_slice(), sir0, farc_header.all_data_offset) {
            Ok(index) => index,
            Err(e) => {
                return Err(e);
            },
        };
        Ok(Farc { data, index })
    }

    /// The number of sub-files.
    #[must_use]
    pub fn file_count(&self) -> (n: usize)
        ensures
            n == self.entries().len(),
    {
        self.index.len()
    }

    /// The number of sub-files without a known name.
    #[must_use]
    pub fn file_unknown_name(&self) -> (n: usize)
        ensures
            n == unknown_hashes(self.entries()).len(),
    {
        self.iter_hash_unknown_name().len()
    }

    /// The number of sub-files with a known name.
    #[must_use]
    pub fn file_known_name(&self) -> (n: usize)
        ensures
            n == known_names(self.entries()).len(),
    {
        let files = self.index.iter();
        let ghost known = |file: FarcFileView| file.name is Some;
        let ghost name = |file: FarcFileView| file.name->0;
        let mut n: usize = 0;
        let mut i: usize = 0;
        while i < files.len()
            invariant
                i <= files.len(),
                n <= i,
                files@.map_values(|file: FarcFile| file@) == self.entries(),
                known == |file: FarcFileView| file.name is Some,
                n == self.entries().take(i as int).filter(known).len(),
            decreases files.len() - i,
        {
            proof {
                let entries = self.entries();
                assert(entries.take(i + 1) =~= entries.take(i as int).push(entries[i as int]));
                Seq::lemma_filter_push(entries.take(i as int), entries[i as int], known);
                assert(entries[i as int] == files@[i as int]@);
            }
            if files[i].name.is_some() {
                n += 1;
            }
            i += 1;
        }
        proof {
            assert(self.entries().take(i as int) =~= self.entries());
        }
        n
    }

    /// The known names, in the order of the file table.
    pub fn iter_name(&self) -> (names: Vec<String>)
        ensures
            names.deep_view() == known_names(self.entries()),
    {
        let files = self.index.iter();
        let ghost known = |file: FarcFileView| file.name is Some;
        let ghost name = |file: FarcFileView| file.name->0;
        let mut names: Vec<String> = Vec::new();
        let mut i: usize = 0;
        while i < files.len()
            invariant
                i <= files.len(),
                files@.map_values(|file: FarcFile| file@) == self.entries(),
                known == |file: FarcFileView| file.name is Some,
                name == |file: FarcFileView| file.name->0,
                names.deep_view() == self.entries().take(i as int).filter(known).map_values(name),
            decreases files.len() - i,
        {
            let ghost before = names.deep_view();
            proof {
                let entries = self.entries();
                assert(entries.take(i + 1) =~= entries.take(i as int).push(entries[i as int]));
                Seq::lemma_filter_push(entries.take(i as int), entries[i as int], known);
                assert(entries[i as int] == files@[i as int]@);
            }
            match &files[i].name {
                Some(known_name) => {
                    names.push(known_name.clone());
                    proof {
                        let entries = self.entries();
                        assert(names.deep_view() =~= before.push(known_name@));
                        assert(entries.take(i + 1).filter(known).map_values(name) =~= before.push(
                            known_name@,
                        ));
                    }
                },
                None => {},
            }
            i += 1;
        }
        proof {
            assert(self.entries().take(i as int) =~= self.entries());
        }
        names
    }

    /// The hashes of the sub-files without a known name, in the order of the
    /// file table.
    pub fn iter_hash_unknown_name(&self) -> (hashes: Vec<u32>)
        ensures
            hashes@ == unknown_hashes(self.entries()),
    {
        let files = self.index.iter();
        let ghost unknown = |file: FarcFileView| file.name is None;
        let ghost hash = |file: FarcFileView| file.name_hash;
        let mut hashes: Vec<u32> = Vec::new();
        let mut i: usize = 0;
        while i < files.len()
            invariant
                i <= files.len(),
                files@.map_values(|file: FarcFile| file@) == self.entries(),
                unknown == |file: FarcFileView| file.name is None,
                hash == |file: FarcFileView| file.name_hash,
                hashes@ == self.entries().take(i as int).filter(unknown).map_values(hash),
            decreases files.len() - i,
        {
            let ghost before = hashes@;
            proof {
                let entries = self.entries();
                assert(entries.take(i + 1) =~= entries.take(i as int).push(entries[i as int]));
                Seq::lemma_filter_push(entries.take(i as int), entries[i as int], unknown);
                assert(entries[i as int] == files@[i as int]@);
            }
            if files[i].name.is_none() {
                hashes.push(files[i].name_hash);
                proof {
                    let entries = self.entries();
                    assert(entries.take(i + 1).filter(unknown).map_values(hash) =~= before.push(
                        files@[i as int].name_hash,
                    ));
                }
            }
            i += 1;
        }
        proof {
            assert(self.entries().take(i as int) =~= self.entries());
        }
        hashes
    }

    /// The hash and the name, where it is known, of every sub-file, in the
    /// order of the file table.
    pub fn iter(&self) -> (pairs: Vec<(u32, Option<String>)>)
        ensures
            pairs.deep_view() == hashes_and_names(self.entries()),
    {
        let files = self.index.iter();
        let mut pairs: Vec<(u32, Option<String>)> = Vec::new();
        let mut i: usize = 0;
        while i < files.len()
            invariant
                i <= files.len(),
                files@.map_values(|file: FarcFile| file@) == self.entries(),
                pairs.deep_view() == hashes_and_names(self.entries().take(i as int)),
            decreases files.len() - i,
        {
            let ghost before = pairs.deep_view();
            let name: Option<String> = match &files[i].name {
                Some(known_name) => Some(known_name.clone()),
                None => None,
            };
            pairs.push((files[i].name_hash, name));
            proof {
                let entries = self.entries();
                assert(entries[i as int] == files@[i as int]@);
                assert(pairs.deep_view() =~= before.push(
                    (entries[i as int].name_hash, entries[i as int].name),
                ));
                assert(hashes_and_names(entries.take(i + 1)) =~= before.push(
                    (entries[i as int].name_hash, entries[i as int].name),
                ));
            }
            i += 1;
        }
        proof {
            assert(self.entries().take(i as int) =~= self.entries());
        }
        pairs
    }

    /// The hash of every sub-file, in the order of the file table. No hash
    /// comes twice.
    pub fn iter_all_hash(&self) -> (hashes: Vec<u32>)
        ensures
            hashes@ == all_hashes(self.entries()),
            valid_entries(self.entries()),
    {
        let files = self.index.iter();
        let mut hashes: Vec<u32> = Vec::new();
        let mut i: usize = 0;
        while i < files.len()
            invariant
                i <= files.len(),
                files@.map_values(|file: FarcFile| file@) == self.entries(),
                hashes@ == all_hashes(self.entries().take(i as int)),
            decreases files.len() - i,
        {
            let ghost before = hashes@;
            hashes.push(files[i].name_hash);
            proof {
                let entries = self.entries();
                assert(entries[i as int] == files@[i as int]@);
                assert(all_hashes(entries.take(i + 1)) =~= before.push(
                    entries[i as int].name_hash,
                ));
            }
            i += 1;
        }
        proof {
            assert(self.entries().take(i as int) =~= self.entries());
        }
        hashes
    }

    /// The bytes of the sub-file that `name` finds: the one known under that
    /// name, else the one with the hash of the name and no known name.
    pub fn get_named_file(&self, name: &str) -> (r: Result<&[u8], FarcError>)
        ensures
            match lookup_name(self.entries(), name@) {
                None => r matches Err(e) && e@ == FarcFailure::NamedFileNotFound(name@),
                Some(file) => if extent_in(file, self.data().len()) {
                    r matches Ok(bytes) && bytes@ == extent_of(self.data(), file)
                } else {
                    r matches Err(e) && e@ == FarcFailure::PartitionCreationError
                },
            },
    {
        let file_data = match self.index.get_file_by_name(name) {
            Some(value) => value,
            None => {
                return Err(FarcError::NamedFileNotFound(name.to_owned()));
            },
        };
        self.create_partition_from_data(file_data)
    }

    /// The bytes of the sub-file with this hash, whether its name is known
    /// or not.
    pub fn get_hashed_file(&self, hash: u32) -> (r: Result<&[u8], FarcError>)
        ensures
            match lookup_hash(self.entries(), hash) {
                None => r matches Err(e) && e@ == FarcFailure::HashedFileNotFound(hash),
                Some(file) => if extent_in(file, self.data().len()) {
                    r matches Ok(bytes) && bytes@ == extent_of(self.data(), file)
                } else {
                    r matches Err(e) && e@ == FarcFailure::PartitionCreationError
                },
            },
    {
        let file_data = match self.index.get_file_by_hash(hash) {
            Some(value) => value,
            None => {
                return Err(FarcError::HashedFileNotFound(hash));
            },
        };
        self.create_partition_from_data(file_data)
    }

    fn create_partition_from_data(&self, file_data: &FarcFile) -> (r: Result<&[u8], FarcError>)
        ensures
            if extent_in(file_data@, self.data().len()) {
                r matches Ok(bytes) && bytes@ == extent_of(self.data(), file_data@)
            } else {
                r matches Err(e) && e@ == FarcFailure::PartitionCreationError
            },
    {
        let end: u64 = file_data.start as u64 + file_data.length as u64;
        if end > self.data.len() as u64 {
            return Err(FarcError::PartitionCreationError);
        }
        Ok(slice_subrange(self.data.as_slice(), file_data.start as usize, end as usize))
    }

    /// Checks whether `name` is the name of a sub-file that has none yet, and
    /// gives it the name if so.
    pub fn check_file_name(&mut self, name: &str) -> (found: bool)
        ensures
            found == name_matches(old(self).entries(), name@),
            final(self).entries() == with_checked_name(old(self).entries(), name@),
            final(self).data() == old(self).data(),
    {
        self.index.check_file_name(name)
    }

    /// Checks each of `names` in turn, as [`Farc::check_file_name`] does.
    pub fn check_file_name_iter(&mut self, names: &[String])
        ensures
            final(self).entries() == with_checked_names(old(self).entries(), names.deep_view()),
            final(self).data() == old(self).data(),
    {
        let mut i: usize = 0;
        while i < names.len()
            invariant
                i <= names.len(),
                self.data() == old(self).data(),
                self.entries() == with_checked_names(
                    old(self).entries(),
                    names.deep_view().take(i as int),
                ),
            decreases names.len() - i,
        {
            proof {
                assert(names.deep_view().take(i + 1).drop_last() =~= names.deep_view().take(
                    i as int,
                ));
                assert(names.deep_view().take(i + 1).last() == names@[i as int]@);
            }
            self.check_file_name(names[i].as_str());
            i += 1;
        }
        proof {
            assert(names.deep_view().take(i as int) =~= names.deep_view());
        }
    }
}

} // verus!
