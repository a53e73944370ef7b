//! The file table of an archive, inside its SIR0 container.

use crate::bytes::{read_u32_at, spec_read_u32};
use crate::farc::{FarcError, FarcFailure};
use crate::farc_file::FarcFileView;
use crate::file_name_index::{add_result, spec_hash_name, FileNameIndex};
use crate::utf16::{read_null_terminated_utf16_string, utf16_read, Utf16Read, Utf16ReadView};
use vstd::prelude::*;

verus! {

/// The three fields at the start of the content header of the SIR0 container.
pub struct TableHeader {
    /// Where the file table starts in the container.
    pub table_offset: u32,
    /// The number of records in the table.
    pub entry_count: u32,
    /// 0 for a table of names, 1 for a table of hashes.
    pub table_kind: u32,
}

/// The fields of the content header `h`, which needs twelve bytes and a known
/// kind of table.
pub open spec fn spec_table_header(h: Seq<u8>) -> Result<TableHeader, FarcFailure> {
    if h.len() < 12 {
        Err(FarcFailure::Sir0HeaderNotLongEnought(h.len() as usize))
    } else if spec_read_u32(h, 8)->0 != 0 && spec_read_u32(h, 8)->0 != 1 {
        Err(FarcFailure::UnsuportedFat5Type(spec_read_u32(h, 8)->0))
    } else {
        Ok(
            TableHeader {
                table_offset: spec_read_u32(h, 0)->0,
                entry_count: spec_read_u32(h, 4)->0,
                table_kind: spec_read_u32(h, 8)->0,
            },
        )
    }
}

/// The entries after the record at `pos` of the container was added to them:
/// its three fields are read, the start of the sub-file is the sum of
/// `all_data_offset` and the second, and the first is the hash of the name
/// or, in a table of names, the place where the name is stored.
#[verifier::opaque]
pub open spec fn with_table_entry(
    entries: Seq<FarcFileView>,
    sir0: Seq<u8>,
    pos: int,
    table_kind: u32,
    all_data_offset: u32,
) -> Result<Seq<FarcFileView>, FarcFailure> {
    if pos + 12 > sir0.len() {
        Err(FarcFailure::IOerror)
    } else {
        let key = spec_read_u32(sir0, pos)->0;
        let data_offset = spec_read_u32(sir0, pos + 4)->0;
        let length = spec_read_u32(sir0, pos + 8)->0;
        if all_data_offset + data_offset > u32::MAX {
            Err(FarcFailure::DataStartOverflow(all_data_offset, data_offset))
        } else {
            let start = (all_data_offset + data_offset) as u32;
            if table_kind == 0 {
                match utf16_read(sir0, key as int) {
                    Utf16ReadView::Truncated => Err(FarcFailure::IOerror),
                    Utf16ReadView::Invalid => Err(FarcFailure::FromUtf16Error),
                    Utf16ReadView::Text(name) => match add_result(
                        entries,
                        FarcFileView {
                            start,
                            length,
                            name_hash: spec_hash_name(name),
                            name: Some(name),
                        },
                    ) {
                        Ok(added) => Ok(added),
                        Err(conflict) => Err(FarcFailure::FileNameError(conflict)),
                    },
                }
            } else {
                match add_result(
                    entries,
                    FarcFileView { start, length, name_hash: key, name: None },
                ) {
                    Ok(added) => Ok(added),
                    Err(conflict) => Err(FarcFailure::FileNameError(conflict)),
                }
            }
        }
    }
}

/// The entries that the first `n` records of the file table give, or what
/// stops at the first record that cannot be added.
pub open spec fn table_entries(
    sir0: Seq<u8>,
    table: TableHeader,
    all_data_offset: u32,
    n: nat,
) -> Result<Seq<FarcFileView>, FarcFailure>
    decreases n,
{
    if n == 0 {
        Ok(Seq::empty())
    } else {
        match table_entries(sir0, table, all_data_offset, (n - 1) as nat) {
            Err(failure) => Err(failure),
            Ok(entries) => with_table_entry(
                entries,
                sir0,
                table.table_offset + 12 * (n - 1),
                table.table_kind,
                all_data_offset,
            ),
        }
    }
}

/// The entries of the file table that the content header `h` describes in
/// the container `sir0`.
pub open spec fn spec_read_file_table(h: Seq<u8>, sir0: Seq<u8>, all_data_offset: u32) -> Result<
    Seq<FarcFileView>,
    FarcFailure,
> {
    match spec_table_header(h) {
        Err(failure) => Err(failure),
        Ok(table) => table_entries(sir0, table, all_data_offset, table.entry_count as nat),
    }
}

/// Once a record could not be added, the records after it change nothing.
pub proof fn lemma_table_failure_stays(
    sir0: Seq<u8>,
    table: TableHeader,
    all_data_offset: u32,
    failed: nat,
    n: nat,
)
    requires
        failed <= n,
        table_entries(sir0, table, all_data_offset, failed) is Err,
    ensures
        table_entries(sir0, table, all_data_offset, n) == table_entries(
            sir0,
            table,
            all_data_offset,
            failed,
        ),
    decreases n,
{
    if failed < n {
        lemma_table_failure_stays(sir0, table, all_data_offset, failed, (n - 1) as nat);
    }
}

/// Reads the record at `pos` of the container and adds its sub-file to the
/// index.
fn add_table_entry(
    index: &mut FileNameIndex,
    sir0: &[u8],
    pos: u64,
    table_kind: u32,
    all_data_offset: u32,
) -> (r: Result<(), FarcError>)
    ensures
        match with_table_entry(old(index)@, sir0@, pos as int, table_kind, all_data_offset) {
            Ok(entries) => r is Ok && final(index)@ == entries,
            Err(failure) => r matches Err(e) && e@ == failure,
        },
{
    reveal(with_table_entry);
    if pos > sir0.len() as u64 || sir0.len() as u64 - pos < 12 {
        return Err(FarcError::IOerror);
    }
    let at: usize = pos as usize;
    let filename_offset_or_hash = read_u32_at(sir0, at).unwrap();
    let data_offset = read_u32_at(sir0, at + 4).unwrap();
    let data_length = read_u32_at(sir0, at + 8).unwrap();
    let data_start = match all_data_offset.checked_add(data_offset) {
        Some(value) => value,
        None => {
            return Err(FarcError::DataStartOverflow(all_data_offset, data_offset));
        },
    };
    let added = if table_kind == 0 {
        match read_null_terminated_utf16_string(sir0, filename_offset_or_hash as usize) {
            Utf16Read::Text(name) => index.add_file_with_name(name, data_start, data_length),
            Utf16Read::Truncated => {
                return Err(FarcError::IOerror);
            },
            Utf16Read::Invalid => {
                return Err(FarcError::FromUtf16Error);
            },
        }
    } else {
        index.add_file_with_hash(filename_offset_or_hash, data_start, data_length)
    };
    match added {
        Ok(()) => Ok(()),
        Err(e) => Err(FarcError::FileNameError(e)),
    }
}

/// Reads the content header `h` of the SIR0 container `sir0` and the file
/// table that it describes, and builds the index of the archive. The first
/// record that cannot be read or added stops the parse.
pub fn read_file_table(h: &[u8], sir0: &[u8], all_data_offset: u32) -> (r: Result<
    FileNameIndex,
    FarcError,
>)
    ensures
        match spec_read_file_table(h@, sir0@, all_data_offset) {
            Ok(entries) => r matches Ok(index) && index@ == entries,
            Err(failure) => r matches Err(e) && e@ == failure,
        },
{
    if h.len() < 12 {
        return Err(FarcError::Sir0HeaderNotLongEnought(h.len()));
    }
    let sir0_data_offset = read_u32_at(h, 0).unwrap();
    let file_count = read_u32_at(h, 4).unwrap();
    let sir0_fat5_type = read_u32_at(h, 8).unwrap();
    if sir0_fat5_type != 0 && sir0_fat5_type != 1 {
        return Err(FarcError::UnsuportedFat5Type(sir0_fat5_type));
    }
    let ghost table = TableHeader {
        table_offset: sir0_data_offset,
        entry_count: file_count,
        table_kind: sir0_fat5_type,
    };
    let mut index = FileNameIndex::new();
    let mut file_index: u32 = 0;
    while file_index < file_count
        invariant
            file_index <= file_count,
            spec_read_file_table(h@, sir0@, all_data_offset) == table_entries(
                sir0@,
                table,
                all_data_offset,
                file_count as nat,
            ),
            table.table_offset == sir0_data_offset,
            table.table_kind == sir0_fat5_type,
            table_entries(sir0@, table, all_data_offset, file_index as nat) == Ok::<
                Seq<FarcFileView>,
                FarcFailure,
            >(index@),
        decreases file_count - file_index,
    {
        let pos: u64 = sir0_data_offset as u64 + 12 * (file_index as u64);
        let ghost before = index@;
        assert(table_entries(sir0@, table, all_data_offset, (file_index + 1) as nat)
            == with_table_entry(before, sir0@, pos as int, sir0_fat5_type, all_data_offset));
        match add_table_entry(&mut index, sir0, pos, sir0_fat5_type, all_data_offset) {
            Ok(()) => {},
            Err(e) => {
                proof {
                    lemma_table_failure_stays(
                        sir0@,
                        table,
                        all_data_offset,
                        (file_index + 1) as nat,
                        file_count as nat,
                    );
                }
                return Err(e);
            },
        }
        file_index += 1;
    }
    Ok(index)
}

} // verus!
