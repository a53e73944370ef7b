//! The PGDB file, which lists actors with the names of their graphic
//! resources.

use crate::bytes::{read_u32_at, spec_read_u32};
use crate::utf16::{read_null_terminated_utf16_string, utf16_read, Utf16Read, Utf16ReadView};
use vstd::prelude::*;
use vstd::slice::{slice_subrange, slice_to_vec};

verus! {

/// What can go wrong while a PGDB file is parsed.
#[derive(Debug, Clone, Copy, PartialEq, Eq)]
pub enum PgdbError {
    /// The data ended where more was to be read.
    IOError,
    /// A string of the file is not valid UTF-16.
    FromUtf16Error,
    /// The header describes entries that cannot be: the data ends before it
    /// starts, there is no entry at all, an entry has fewer than twelve
    /// bytes, or an entry starts at an offset that does not fit in 32 bits.
    BadLayout,
}

/// An entry of a PGDB file.
#[derive(Debug)]
pub struct PGDBEntrie {
    pub primary_bgrs_filename: String,
    pub secondary_bgrs_filename: String,
    pub actor_name: String,
    pub data: Vec<u8>,
}

/// What a [`PGDBEntrie`] holds, strings as sequences of characters.
pub struct PGDBEntrieView {
    pub primary_bgrs_filename: Seq<char>,
    pub secondary_bgrs_filename: Seq<char>,
    pub actor_name: Seq<char>,
    pub data: Seq<u8>,
}

impl View for PGDBEntrie {
    type V = PGDBEntrieView;

    open spec fn view(&self) -> PGDBEntrieView {
        PGDBEntrieView {
            primary_bgrs_filename: self.primary_bgrs_filename@,
            secondary_bgrs_filename: self.secondary_bgrs_filename@,
            actor_name: self.actor_name@,
            data: self.data@,
        }
    }
}

impl PGDBEntrie {
    /// An entry with the given fields.
    pub fn new(
        actor_name: String,
        primary_bgrs_filename: String,
        secondary_bgrs_filename: String,
        data: Vec<u8>,
    ) -> (entry: Self)
        ensures
            entry.actor_name == actor_name,
            entry.primary_bgrs_filename == primary_bgrs_filename,
            entry.secondary_bgrs_filename == secondary_bgrs_filename,
            entry.data == data,
    {
        PGDBEntrie { actor_name, primary_bgrs_filename, secondary_bgrs_filename, data }
    }
}

/// Where the entries of a PGDB file are, how many the header counts, and how
/// long each is.
pub struct PgdbLayout {
    pub data_offset: u32,
    pub num_entries: u32,
    pub entry_size: u32,
}

/// The little-endian `u32` at `pos`, or the error of data that ends before.
pub open spec fn spec_pgdb_u32(data: Seq<u8>, pos: int) -> Result<u32, PgdbError> {
    match spec_read_u32(data, pos) {
        Some(value) => Ok(value),
        None => Err(PgdbError::IOError),
    }
}

/// The string at `pos`, or the error of data that ends before its
/// terminator or of code units that are no UTF-16.
pub open spec fn spec_pgdb_string(data: Seq<u8>, pos: int) -> Result<Seq<char>, PgdbError> {
    match utf16_read(data, pos) {
        Utf16ReadView::Text(text) => Ok(text),
        Utf16ReadView::Truncated => Err(PgdbError::IOError),
        Utf16ReadView::Invalid => Err(PgdbError::FromUtf16Error),
    }
}

/// The layout that the header gives. The field at 4 points to the
/// sub-header, the field at 8 to the end of the entries; the sub-header holds
/// at 4 the start of the entries and at 8 their number. The entries share
/// the bytes from start to end evenly.
pub open spec fn spec_pgdb_layout(data: Seq<u8>) -> Result<PgdbLayout, PgdbError> {
    if spec_read_u32(data, 4) is None || spec_read_u32(data, 8) is None {
        Err(PgdbError::IOError)
    } else {
        let sub_header = spec_read_u32(data, 4)->0;
        let end = spec_read_u32(data, 8)->0;
        if spec_read_u32(data, sub_header + 4) is None || spec_read_u32(data, sub_header + 8)
            is None {
            Err(PgdbError::IOError)
        } else {
            let data_offset = spec_read_u32(data, sub_header + 4)->0;
            let num_entries = spec_read_u32(data, sub_header + 8)->0;
            if end < data_offset || num_entries == 0 {
                Err(PgdbError::BadLayout)
            } else {
                Ok(
                    PgdbLayout {
                        data_offset,
                        num_entries,
                        entry_size: ((end - data_offset) / (num_entries as int)) as u32,
                    },
                )
            }
        }
    }
}

/// The entry of rank `rank`: three pointers to its strings, then its data up
/// to the next entry.
#[verifier::opaque]
pub open spec fn spec_pgdb_entry(data: Seq<u8>, layout: PgdbLayout, rank: int) -> Result<
    PGDBEntrieView,
    PgdbError,
> {
    let entry_offset = layout.data_offset + rank * layout.entry_size;
    if entry_offset > u32::MAX {
        Err(PgdbError::BadLayout)
    } else if entry_offset + 12 > data.len() {
        Err(PgdbError::IOError)
    } else if layout.entry_size < 12 {
        Err(PgdbError::BadLayout)
    } else if entry_offset + layout.entry_size > data.len() {
        Err(PgdbError::IOError)
    } else {
        match spec_pgdb_string(data, spec_read_u32(data, entry_offset)->0 as int) {
            Err(e) => Err(e),
            Ok(primary) => match spec_pgdb_string(
                data,
                spec_read_u32(data, entry_offset + 4)->0 as int,
            ) {
                Err(e) => Err(e),
                Ok(secondary) => match spec_pgdb_string(
                    data,
                    spec_read_u32(data, entry_offset + 8)->0 as int,
                ) {
                    Err(e) => Err(e),
                    Ok(actor) => Ok(
                        PGDBEntrieView {
                            primary_bgrs_filename: primary,
                            secondary_bgrs_filename: secondary,
                            actor_name: actor,
                            data: data.subrange(
                                entry_offset + 12,
                                entry_offset + layout.entry_size,
                            ),
                        },
                    ),
                },
            },
        }
    }
}

/// The first `n` entries, or what stops at the first that cannot be read.
pub open spec fn spec_pgdb_entries(data: Seq<u8>, layout: PgdbLayout, n: nat) -> Result<
    Seq<PGDBEntrieView>,
    PgdbError,
>
    decreases n,
{
    if n == 0 {
        Ok(Seq::empty())
    } else {
        match spec_pgdb_entries(data, layout, (n - 1) as nat) {
            Err(e) => Err(e),
            Ok(entries) => match spec_pgdb_entry(data, layout, n - 1) {
                Err(e) => Err(e),
                Ok(entry) => Ok(entries.push(entry)),
            },
        }
    }
}

/// The entries of a PGDB file: all that the header counts but the last.
pub open spec fn spec_parse_pgdb(data: Seq<u8>) -> Result<Seq<PGDBEntrieView>, PgdbError> {
    match spec_pgdb_layout(data) {
        Err(e) => Err(e),
        Ok(layout) => spec_pgdb_entries(data, layout, (layout.num_entries - 1) as nat),
    }
}

/// Once an entry could not be read, the entries after it change nothing.
proof fn lemma_pgdb_failure_stays(data: Seq<u8>, layout: PgdbLayout, failed: nat, n: nat)
    requires
        failed <= n,
        spec_pgdb_entries(data, layout, failed) is Err,
    ensures
        spec_pgdb_entries(data, layout, n) == spec_pgdb_entries(data, layout, failed),
    decreases n,
{
    if failed < n {
        lemma_pgdb_failure_stays(data, layout, failed, (n - 1) as nat);
    }
}

fn pgdb_read_u32(file: &[u8], pos: u64) -> (r: Result<u32, PgdbError>)
    ensures
        r == spec_pgdb_u32(file@, pos as int),
{
    if pos > file.len() as u64 {
        return Err(PgdbError::IOError);
    }
    match read_u32_at(file, pos as usize) {
        Some(value) => Ok(value),
        None => Err(PgdbError::IOError),
    }
}

fn pgdb_read_utf16_at_offset(file: &[u8], offset: u32) -> (r: Result<String, PgdbError>)
    ensures
        match spec_pgdb_string(file@, offset as int) {
            Ok(text) => r matches Ok(s) && s@ == text,
            Err(e) => r == Err::<String, PgdbError>(e),
        },
{
    match read_null_terminated_utf16_string(file, offset as usize) {
        Utf16Read::Text(text) => Ok(text),
        Utf16Read::Truncated => Err(PgdbError::IOError),
        Utf16Read::Invalid => Err(PgdbError::FromUtf16Error),
    }
}

fn pgdb_read_layout(file: &[u8]) -> (r: Result<PgdbLayout, PgdbError>)
    ensures
        r == spec_pgdb_layout(file@),
{
    let sub_header_pointer = pgdb_read_u32(file, 4)?;
    let sir0_relative_pointer_offset = pgdb_read_u32(file, 8)?;
    let data_offset = pgdb_read_u32(file, sub_header_pointer as u64 + 4)?;
    let num_entries = pgdb_read_u32(file, sub_header_pointer as u64 + 8)?;
    if sir0_relative_pointer_offset < data_offset || num_entries == 0 {
        return Err(PgdbError::BadLayout);
    }
    let data_size = sir0_relative_pointer_offset - data_offset;
    Ok(PgdbLayout { data_offset, num_entries, entry_size: data_size / num_entries })
}

fn pgdb_read_entry(file: &[u8], layout: &PgdbLayout, rank: u32) -> (r: Result<
    PGDBEntrie,
    PgdbError,
>)
    ensures
        match spec_pgdb_entry(file@, *layout, rank as int) {
            Ok(entry) => r matches Ok(read) && read@ == entry,
            Err(e) => r matches Err(found) && found == e,
        },
{
    reveal(spec_pgdb_entry);
    assert(rank * layout.entry_size <= 0xFFFF_FFFF * 0xFFFF_FFFF) by (nonlinear_arith)
        requires
            0 <= rank <= 0xFFFF_FFFF,
            0 <= layout.entry_size <= 0xFFFF_FFFF,
    ;
    let entry_offset: u64 = layout.data_offset as u64 + rank as u64 * layout.entry_size as u64;
    if entry_offset > 0xFFFF_FFFF {
        return Err(PgdbError::BadLayout);
    }
    if entry_offset + 12 > file.len() as u64 {
        return Err(PgdbError::IOError);
    }
    let at: usize = entry_offset as usize;
    let primary_bgrs_filename_pointer = read_u32_at(file, at).unwrap();
    let secondary_bgrs_filename_pointer = read_u32_at(file, at + 4).unwrap();
    let actor_name_pointer = read_u32_at(file, at + 8).unwrap();
    if layout.entry_size < 12 {
        return Err(PgdbError::BadLayout);
    }
    let end: u64 = entry_offset + layout.entry_size as u64;
    if end > file.len() as u64 {
        return Err(PgdbError::IOError);
    }
    let data = slice_to_vec(slice_subrange(file, at + 12, end as usize));
    let primary_bgrs_filename = pgdb_read_utf16_at_offset(file, primary_bgrs_filename_pointer)?;
    let secondary_bgrs_filename = pgdb_read_utf16_at_offset(
        file,
        secondary_bgrs_filename_pointer,
    )?;
    let actor_name = pgdb_read_utf16_at_offset(file, actor_name_pointer)?;
    Ok(PGDBEntrie::new(actor_name, primary_bgrs_filename, secondary_bgrs_filename, data))
}

/// A parsed PGDB file.
#[derive(Debug)]
pub struct Pgdb {
    entries: Vec<PGDBEntrie>,
}

impl View for Pgdb {
    type V = Seq<PGDBEntrieView>;

    closed spec fn view(&self) -> Seq<PGDBEntrieView> {
        self.entries@.map_values(|entry: PGDBEntrie| entry@)
    }
}

impl Pgdb {
    /// Parses the PGDB file that `file` holds.
    pub fn new(file: &[u8]) -> (r: Result<Self, PgdbError>)
        ensures
            match spec_parse_pgdb(file@) {
                Ok(entries) => r matches Ok(pgdb) && pgdb@ == entries,
                Err(e) => r matches Err(found) && found == e,
            },
    {
        let layout = match pgdb_read_layout(file) {
            Ok(layout) => layout,
            Err(e) => {
                return Err(e);
            },
        };
        let wanted: u32 = layout.num_entries - 1;
        let mut entries: Vec<PGDBEntrie> = Vec::new();
        let mut count: u32 = 0;
        assert(entries@.map_values(|entry: PGDBEntrie| entry@) =~= Seq::<PGDBEntrieView>::empty());
        while count < wanted
            invariant
                count <= wanted,
                spec_pgdb_layout(file@) == Ok::<PgdbLayout, PgdbError>(layout),
                wanted == layout.num_entries - 1,
                spec_pgdb_entries(file@, layout, count as nat) == Ok::<
                    Seq<PGDBEntrieView>,
                    PgdbError,
                >(entries@.map_values(|entry: PGDBEntrie| entry@)),
            decreases wanted - count,
        {
            let ghost before = entries@.map_values(|entry: PGDBEntrie| entry@);
            match pgdb_read_entry(file, &layout, count) {
                Ok(entry) => {
                    entries.push(entry);
                    proof {
                        assert(entries@.map_values(|entry: PGDBEntrie| entry@) =~= before.push(
                            entry@,
                        ));
                    }
                },
                Err(e) => {
                    proof {
                        lemma_pgdb_failure_stays(
                            file@,
                            layout,
                            (count + 1) as nat,
                            wanted as nat,
                        );
                    }
                    return Err(e);
                },
            }
            count += 1;
        }
        Ok(Pgdb { entries })
    }

    /// The entries of the file.
    pub fn get_entries(&self) -> (entries: &Vec<PGDBEntrie>)
        ensures
            entries@.map_values(|entry: PGDBEntrie| entry@) == self@,
    {
        &self.entries
    }
}

} // verus!
