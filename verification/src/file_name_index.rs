//! The index of an archive: every sub-file, found by the hash of its name, or
//! by its name where it is known.

use crate::farc_file::{FarcFile, FarcFileView};
use crate::utf16::{string_to_utf16, utf16_le_bytes};
use crc::crc32;
use std::collections::HashMap;
use vstd::prelude::*;

verus! {

/// The IEEE CRC-32 of a byte sequence, as `crc::crc32::checksum_ieee`
/// computes it.
pub uninterp spec fn crc32_ieee(bytes: Seq<u8>) -> u32;

/// The hash of a name: the IEEE CRC-32 of its UTF-16LE encoding.
pub open spec fn spec_hash_name(name: Seq<char>) -> u32 {
    crc32_ieee(utf16_le_bytes(name))
}

/// Calls `crc::crc32::checksum_ieee`. The checksum is named, not described.
#[verifier::external_body]
fn checksum_ieee(bytes: &[u8]) -> (sum: u32)
    ensures
        sum == crc32_ieee(bytes@),
{
    crc32::checksum_ieee(bytes)
}

/// Hashes a name: encodes it as UTF-16LE and takes the IEEE CRC-32 of the bytes.
pub fn hash_name(name: &str) -> (hash: u32)
    ensures
        hash == spec_hash_name(name@),
{
    let name_encoded_utf16 = string_to_utf16(name);
    checksum_ieee(name_encoded_utf16.as_slice())
}

/// A conflict between a sub-file to add and one that the index holds.
#[derive(Debug, PartialEq, Eq)]
pub enum FileNameError {
    /// Two sub-files with the same hash, neither with a known name.
    HashAlreadyPresent(u32),
    /// Two sub-files with the same hash, one of them with a known name.
    HashAlreadyPresentOne(u32, String),
    /// Two sub-files with the same hash, both with a known name: first that
    /// of the one to add, then that of the one in the index.
    HashAlreadyPresentTwo(u32, String, String),
    /// Two sub-files with the same name.
    NameAlreadyPresent(String),
}

/// What a [`FileNameError`] holds, names as sequences of characters.
pub enum FileNameConflict {
    HashAlreadyPresent(u32),
    HashAlreadyPresentOne(u32, Seq<char>),
    HashAlreadyPresentTwo(u32, Seq<char>, Seq<char>),
    NameAlreadyPresent(Seq<char>),
}

impl View for FileNameError {
    type V = FileNameConflict;

    open spec fn view(&self) -> FileNameConflict {
        match self {
            FileNameError::HashAlreadyPresent(hash) => FileNameConflict::HashAlreadyPresent(*hash),
            FileNameError::HashAlreadyPresentOne(hash, name) => {
                FileNameConflict::HashAlreadyPresentOne(*hash, name@)
            },
            FileNameError::HashAlreadyPresentTwo(hash, first, second) => {
                FileNameConflict::HashAlreadyPresentTwo(*hash, first@, second@)
            },
            FileNameError::NameAlreadyPresent(name) => FileNameConflict::NameAlreadyPresent(name@),
        }
    }
}

/// Whether some entry has this hash.
pub open spec fn has_hash(entries: Seq<FarcFileView>, hash: u32) -> bool {
    exists|i: int| 0 <= i < entries.len() && entries[i].name_hash == hash
}

/// Whether some entry has this known name.
pub open spec fn has_name(entries: Seq<FarcFileView>, name: Seq<char>) -> bool {
    exists|i: int| 0 <= i < entries.len() && entries[i].name == Some(name)
}

/// The position of the entry with this hash.
pub open spec fn position_of_hash(entries: Seq<FarcFileView>, hash: u32) -> int {
    choose|i: int| 0 <= i < entries.len() && entries[i].name_hash == hash
}

/// The position of the entry with this known name.
pub open spec fn position_of_name(entries: Seq<FarcFileView>, name: Seq<char>) -> int {
    choose|i: int| 0 <= i < entries.len() && entries[i].name == Some(name)
}

/// What an index guarantees of its entries: a known name hashes to the hash
/// beside it, and no two entries share a hash. No two entries share a name
/// then either.
pub open spec fn valid_entries(entries: Seq<FarcFileView>) -> bool {
    &&& forall|i: int|
        0 <= i < entries.len() ==> (#[trigger] entries[i].name matches Some(name)
            ==> entries[i].name_hash == spec_hash_name(name))
    &&& forall|i: int, j: int|
        0 <= i < j < entries.len() ==> entries[i].name_hash != entries[j].name_hash
}

/// The entries after an attempt to add `file`, or the conflict that keeps it
/// out. A name that is there already is reported before a hash that is.
pub open spec fn add_result(entries: Seq<FarcFileView>, file: FarcFileView) -> Result<
    Seq<FarcFileView>,
    FileNameConflict,
> {
    if file.name is Some && has_name(entries, file.name->0) {
        Err(FileNameConflict::NameAlreadyPresent(file.name->0))
    } else if has_hash(entries, file.name_hash) {
        let other = entries[position_of_hash(entries, file.name_hash)];
        Err(
            match (file.name, other.name) {
                (Some(first), Some(second)) => FileNameConflict::HashAlreadyPresentTwo(
                    file.name_hash,
                    first,
                    second,
                ),
                (Some(first), None) => FileNameConflict::HashAlreadyPresentOne(
                    file.name_hash,
                    first,
                ),
                (None, Some(second)) => FileNameConflict::HashAlreadyPresentOne(
                    file.name_hash,
                    second,
                ),
                (None, None) => FileNameConflict::HashAlreadyPresent(file.name_hash),
            },
        )
    } else {
        Ok(entries.push(file))
    }
}

/// Whether `name` recovers the name of an entry: its hash is that of an entry
/// without a known name.
pub open spec fn name_matches(entries: Seq<FarcFileView>, name: Seq<char>) -> bool {
    has_hash(entries, spec_hash_name(name)) && entries[position_of_hash(
        entries,
        spec_hash_name(name),
    )].name is None
}

/// The entries after `name` was checked against them: where it matches, the
/// entry with its hash has that name.
pub open spec fn with_checked_name(entries: Seq<FarcFileView>, name: Seq<char>) -> Seq<
    FarcFileView,
> {
    if name_matches(entries, name) {
        let at = position_of_hash(entries, spec_hash_name(name));
        entries.update(at, FarcFileView { name: Some(name), ..entries[at] })
    } else {
        entries
    }
}

/// The entry that a name finds: the one with that known name, else the one
/// with the hash of the name, unless that one is known under another name.
pub open spec fn lookup_name(entries: Seq<FarcFileView>, name: Seq<char>) -> Option<
    FarcFileView,
> {
    if has_name(entries, name) {
        Some(entries[position_of_name(entries, name)])
    } else if name_matches(entries, name) {
        Some(entries[position_of_hash(entries, spec_hash_name(name))])
    } else {
        None
    }
}

/// The entry that a hash finds.
pub open spec fn lookup_hash(entries: Seq<FarcFileView>, hash: u32) -> Option<FarcFileView> {
    if has_hash(entries, hash) {
        Some(entries[position_of_hash(entries, hash)])
    } else {
        None
    }
}

/// In a valid index no two entries are known under the same name.
pub proof fn law_names_are_unique(entries: Seq<FarcFileView>, i: int, j: int)
    requires
        valid_entries(entries),
        0 <= i < j < entries.len(),
        entries[i].name is Some,
    ensures
        entries[i].name != entries[j].name,
{
    assert(entries[i].name_hash != entries[j].name_hash);
}

/// Checking a name changes no hash, start or length, adds no entry and
/// removes none, and keeps the entries valid.
pub proof fn law_check_file_name_keeps_entries(entries: Seq<FarcFileView>, name: Seq<char>)
    requires
        valid_entries(entries),
    ensures
        with_checked_name(entries, name).len() == entries.len(),
        forall|i: int|
            0 <= i < entries.len() ==> {
                let checked = #[trigger] with_checked_name(entries, name)[i];
                &&& checked.name_hash == entries[i].name_hash
                &&& checked.start == entries[i].start
                &&& checked.length == entries[i].length
                &&& entries[i].name is Some ==> checked.name == entries[i].name
            },
        valid_entries(with_checked_name(entries, name)),
{
    let checked = with_checked_name(entries, name);
    assert forall|i: int, j: int| 0 <= i < j < checked.len() implies checked[i].name_hash
        != checked[j].name_hash by {
        assert(entries[i].name_hash != entries[j].name_hash);
    }
}

/// Checking the same name twice: where the first check finds an entry, the
/// second finds none and changes nothing.
pub proof fn law_check_file_name_twice(entries: Seq<FarcFileView>, name: Seq<char>)
    requires
        valid_entries(entries),
        name_matches(entries, name),
    ensures
        !name_matches(with_checked_name(entries, name), name),
        with_checked_name(with_checked_name(entries, name), name) == with_checked_name(
            entries,
            name,
        ),
        lookup_name(with_checked_name(entries, name), name) == Some(
            FarcFileView {
                name: Some(name),
                ..entries[position_of_hash(entries, spec_hash_name(name))]
            },
        ),
{
    let hash = spec_hash_name(name);
    let at = position_of_hash(entries, hash);
    let once = with_checked_name(entries, name);
    law_check_file_name_keeps_entries(entries, name);
    assert(once[at].name_hash == hash);
    assert(has_hash(once, hash));
    let again = position_of_hash(once, hash);
    if again < at {
        assert(once[again].name_hash != once[at].name_hash);
    } else if at < again {
        assert(once[at].name_hash != once[again].name_hash);
    }
    assert(once[at].name == Some(name));
    assert(has_name(once, name));
    let named = position_of_name(once, name);
    if named != at {
        assert(once[named].name_hash == hash);
        if named < at {
            assert(once[named].name_hash != once[at].name_hash);
        } else {
            assert(once[at].name_hash != once[named].name_hash);
        }
    }
}

/// Adding an entry whose known name, if any, hashes to its hash keeps the
/// entries valid, and a conflict is reported exactly where the name or the
/// hash is there already.
pub proof fn law_add_keeps_entries_valid(entries: Seq<FarcFileView>, file: FarcFileView)
    requires
        valid_entries(entries),
        file.name matches Some(name) ==> file.name_hash == spec_hash_name(name),
    ensures
        add_result(entries, file) is Err <==> has_hash(entries, file.name_hash),
        add_result(entries, file) matches Ok(added) ==> valid_entries(added) && added.len()
            == entries.len() + 1 && lookup_hash(added, file.name_hash) == Some(file),
{
    if file.name is Some && has_name(entries, file.name->0) {
        let at = position_of_name(entries, file.name->0);
        assert(entries[at].name_hash == file.name_hash);
    }
    if !has_hash(entries, file.name_hash) {
        let added = entries.push(file);
        assert forall|i: int, j: int| 0 <= i < j < added.len() implies added[i].name_hash
            != added[j].name_hash by {
            if j < entries.len() {
                assert(entries[i].name_hash != entries[j].name_hash);
            } else {
                assert(entries[i].name_hash != file.name_hash);
            }
        }
        assert forall|i: int| 0 <= i < added.len() implies (#[trigger] added[i].name matches Some(
            name,
        ) ==> added[i].name_hash == spec_hash_name(name)) by {
            if i < entries.len() {
                assert(added[i] == entries[i]);
            }
        }
        assert(added[entries.len() as int].name_hash == file.name_hash);
        assert(has_hash(added, file.name_hash));
        let at = position_of_hash(added, file.name_hash);
        if at < entries.len() {
            assert(entries[at].name_hash == file.name_hash);
        }
    }
}

/// The index of an archive. Each sub-file has a place in its parent file and
/// the hash of its name; the name itself may or may not be known. A name is
/// found through its hash: an entry that is known under a name has the hash
/// of that name, so the table of hashes serves for names too.
#[derive(Debug)]
pub struct FileNameIndex {
    file_data: Vec<FarcFile>,
    file_id_by_crc32: HashMap<u32, usize>,
}

impl View for FileNameIndex {
    type V = Seq<FarcFileView>;

    closed spec fn view(&self) -> Seq<FarcFileView> {
        self.file_data@.map_values(|file: FarcFile| file@)
    }
}

impl Default for FileNameIndex {
    fn default() -> (index: Self)
        ensures
            index@ == Seq::<FarcFileView>::empty(),
    {
        FileNameIndex::new()
    }
}

impl FileNameIndex {
    #[verifier::type_invariant]
    spec fn well_formed(&self) -> bool {
        &&& valid_entries(self@)
        &&& forall|i: int|
            0 <= i < self.file_data@.len() ==> self.file_id_by_crc32@.contains_key(
                #[trigger] self.file_data@[i].name_hash,
            ) && self.file_id_by_crc32@[self.file_data@[i].name_hash] == i
        &&& forall|hash: u32| #[trigger]
            self.file_id_by_crc32@.contains_key(hash) ==> {
                let id = self.file_id_by_crc32@[hash];
                0 <= id < self.file_data@.len() && self.file_data@[id as int].name_hash == hash
            }
    }

    /// An index without entries.
    pub fn new() -> (index: Self)
        ensures
            index@ == Seq::<FarcFileView>::empty(),
    {
        let index = FileNameIndex { file_data: Vec::new(), file_id_by_crc32: HashMap::new() };
        assert(index@ =~= Seq::<FarcFileView>::empty());
        index
    }

    /// The number of entries.
    pub fn len(&self) -> (n: usize)
        ensures
            n == self@.len(),
    {
        self.file_data.len()
    }

    /// The entries, in the order in which they were added.
    pub fn iter(&self) -> (files: &[FarcFile])
        ensures
            files@.map_values(|file: FarcFile| file@) == self@,
            valid_entries(self@),
    {
        proof {
            use_type_invariant(self);
        }
        self.file_data.as_slice()
    }

    /// Adds an entry without a known name under the given hash, or reports
    /// the conflict and leaves the index as it was.
    pub fn add_file_with_hash(&mut self, hash: u32, offset: u32, lenght: u32) -> (r: Result<
        (),
        FileNameError,
    >)
        ensures
            match add_result(
                old(self)@,
                FarcFileView { start: offset, length: lenght, name_hash: hash, name: None },
            ) {
                Ok(entries) => r is Ok && final(self)@ == entries,
                Err(conflict) => r is Err && r->Err_0@ == conflict && final(self)@ == old(self)@,
            },
            valid_entries(final(self)@),
    {
        let farc_file = FarcFile::new(offset, lenght, hash, None);
        self.add_file(farc_file)
    }

    /// Adds an entry with a known name, under the hash of that name, or
    /// reports the conflict and leaves the index as it was.
    pub fn add_file_with_name(&mut self, name: String, offset: u32, lenght: u32) -> (r: Result<
        (),
        FileNameError,
    >)
        ensures
            match add_result(
                old(self)@,
                FarcFileView {
                    start: offset,
                    length: lenght,
                    name_hash: spec_hash_name(name@),
                    name: Some(name@),
                },
            ) {
                Ok(entries) => r is Ok && final(self)@ == entries,
                Err(conflict) => r is Err && r->Err_0@ == conflict && final(self)@ == old(self)@,
            },
            valid_entries(final(self)@),
    {
        let hash = hash_name(name.as_str());
        let farc_file = FarcFile::new(offset, lenght, hash, Some(name));
        self.add_file(farc_file)
    }

    fn add_file(&mut self, farc_file: FarcFile) -> (r: Result<(), FileNameError>)
        requires
            farc_file.name matches Some(name) ==> farc_file.name_hash == spec_hash_name(name@),
        ensures
            match add_result(old(self)@, farc_file@) {
                Ok(entries) => r is Ok && final(self)@ == entries,
                Err(conflict) => r is Err && r->Err_0@ == conflict && final(self)@ == old(self)@,
            },
            valid_entries(final(self)@),
    {
        proof {
            use_type_invariant(&*self);
        }
        let ghost entries = self@;
        let hash = farc_file.name_hash;
        match self.file_id_by_crc32.get(&hash) {
            Some(old_id) => {
                let other = &self.file_data[*old_id];
                proof {
                    assert(entries[*old_id as int] == other@);
                    assert(has_hash(entries, hash));
                    assert(position_of_hash(entries, hash) == *old_id);
                    if farc_file.name is Some && has_name(entries, farc_file.name->0@) {
                        let j = position_of_name(entries, farc_file.name->0@);
                        assert(entries[j].name_hash == hash);
                        assert(j == *old_id);
                    }
                }
                Err(
                    match farc_file.name {
                        Some(name_first) => match &other.name {
                            Some(name_second) => {
                                if name_first == *name_second {
                                    FileNameError::NameAlreadyPresent(name_first)
                                } else {
                                    FileNameError::HashAlreadyPresentTwo(
                                        hash,
                                        name_first,
                                        name_second.clone(),
                                    )
                                }
                            },
                            None => FileNameError::HashAlreadyPresentOne(hash, name_first),
                        },
                        None => match &other.name {
                            Some(name_second) => FileNameError::HashAlreadyPresentOne(
                                hash,
                                name_second.clone(),
                            ),
                            None => FileNameError::HashAlreadyPresent(hash),
                        },
                    },
                )
            },
            None => {
                proof {
                    if has_hash(entries, hash) {
                        let i = position_of_hash(entries, hash);
                        assert(self.file_data@[i].name_hash == hash);
                    }
                    if farc_file.name is Some && has_name(entries, farc_file.name->0@) {
                        let j = position_of_name(entries, farc_file.name->0@);
                        assert(self.file_data@[j].name_hash == hash);
                    }
                }
                let mut taken = FileNameIndex::new();
                std::mem::swap(self, &mut taken);
                let FileNameIndex { mut file_data, mut file_id_by_crc32 } = taken;
                let new_farc_id = file_data.len();
                file_id_by_crc32.insert(hash, new_farc_id);
                file_data.push(farc_file);
                proof {
                    assert(file_data@.map_values(|file: FarcFile| file@) =~= entries.push(
                        farc_file@,
                    ));
                }
                *self = FileNameIndex { file_data, file_id_by_crc32 };
                Ok(())
            },
        }
    }

    /// Checks whether `name` is the name of an entry that has none yet: if an
    /// entry has the hash of `name` and no known name, the entry gets the
    /// name and the result is `true`. Otherwise nothing changes and the
    /// result is `false`: a known name is never replaced.
    pub fn check_file_name(&mut self, name: &str) -> (found: bool)
        ensures
            found == name_matches(old(self)@, name@),
            final(self)@ == with_checked_name(old(self)@, name@),
            valid_entries(final(self)@),
    {
        proof {
            use_type_invariant(&*self);
        }
        let ghost entries = self@;
        let hash = hash_name(name);
        let id: usize = match self.file_id_by_crc32.get(&hash) {
            Some(id) => *id,
            None => {
                proof {
                    if has_hash(entries, hash) {
                        let i = position_of_hash(entries, hash);
                        assert(self.file_data@[i].name_hash == hash);
                    }
                }
                return false;
            },
        };
        proof {
            assert(entries[id as int] == self.file_data@[id as int]@);
            assert(has_hash(entries, hash));
            assert(position_of_hash(entries, hash) == id);
        }
        if self.file_data[id].name.is_some() {
            return false;
        }
        let mut taken = FileNameIndex::new();
        std::mem::swap(self, &mut taken);
        let FileNameIndex { mut file_data, file_id_by_crc32 } = taken;
        let start = file_data[id].start;
        let length = file_data[id].length;
        file_data.set(id, FarcFile::new(start, length, hash, Some(name.to_owned())));
        proof {
            let renamed = file_data@.map_values(|file: FarcFile| file@);
            assert(renamed =~= with_checked_name(entries, name@));
            assert forall|i: int, j: int| 0 <= i < j < renamed.len() implies renamed[i].name_hash
                != renamed[j].name_hash by {
                assert(renamed[i].name_hash == entries[i].name_hash);
                assert(renamed[j].name_hash == entries[j].name_hash);
            }
            assert forall|i: int| 0 <= i < renamed.len() implies (#[trigger] renamed[i].name
                matches Some(known) ==> renamed[i].name_hash == spec_hash_name(known)) by {
                if i != id {
                    assert(renamed[i] == entries[i]);
                }
            }
        }
        *self = FileNameIndex { file_data, file_id_by_crc32 };
        true
    }

    /// The entry that `name` finds: the one known under that name, else the
    /// one with the hash of the name and no known name. Where the entry with
    /// that hash is known under another name, nothing is found.
    pub fn get_file_by_name(&self, name: &str) -> (r: Option<&FarcFile>)
        ensures
            match r {
                Some(file) => lookup_name(self@, name@) == Some(file@),
                None => lookup_name(self@, name@) is None,
            },
    {
        proof {
            use_type_invariant(self);
        }
        let hash = hash_name(name);
        match self.file_id_by_crc32.get(&hash) {
            Some(id) => {
                let file = &self.file_data[*id];
                proof {
                    assert(self@[*id as int] == file@);
                    assert(has_hash(self@, hash));
                    assert(position_of_hash(self@, hash) == *id);
                    if has_name(self@, name@) {
                        let j = position_of_name(self@, name@);
                        assert(self@[j].name_hash == hash);
                        assert(j == *id);
                    }
                }
                match &file.name {
                    Some(known) => {
                        if *known == name.to_owned() {
                            Some(file)
                        } else {
                            None
                        }
                    },
                    None => Some(file),
                }
            },
            None => {
                proof {
                    if has_hash(self@, hash) {
                        let i = position_of_hash(self@, hash);
                        assert(self.file_data@[i].name_hash == hash);
                    }
                    if has_name(self@, name@) {
                        let j = position_of_name(self@, name@);
                        assert(self.file_data@[j].name_hash == hash);
                    }
                }
                None
            },
        }
    }

    /// The entry with this hash, whether its name is known or not.
    pub fn get_file_by_hash(&self, hash: u32) -> (r: Option<&FarcFile>)
        ensures
            match r {
                Some(file) => lookup_hash(self@, hash) == Some(file@),
                None => lookup_hash(self@, hash) is None,
            },
    {
        proof {
            use_type_invariant(self);
        }
        match self.file_id_by_crc32.get(&hash) {
            Some(id) => {
                let file = &self.file_data[*id];
                proof {
                    assert(self@[*id as int] == file@);
                    assert(has_hash(self@, hash));
                }
                Some(file)
            },
            None => {
                proof {
                    if has_hash(self@, hash) {
                        let i = position_of_hash(self@, hash);
                        assert(self.file_data@[i].name_hash == hash);
                    }
                }
                None
            },
        }
    }
}

} // verus!
