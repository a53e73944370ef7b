//! Serialising a hash-indexed archive.

use crate::bytes::{pad_to_16, padding_to, push_u32_le, push_zeros, zeros};
use crate::farc::{extent_in, Farc, FarcError, FarcFailure};
use crate::file_name_index::valid_entries;
use crate::layout::{
    all_readable, archive_bytes, archive_files, archive_fits, ascending, content_header,
    is_sorted_keys, layout_fits, lemma_archive_files_step, lemma_position_of_hash,
    lemma_sorted_keys_unique, lemma_storage_region_grows, lemma_table_region_len, meta_body,
    meta_region, meta_table, outer_header, relocation_pointers, sorted_keys, storage_region,
    table_region, written_archive,
};
use crate::sir0::{write_footer, write_header};
use pmd_sir0::Sir0WriteFooterError;
use std::collections::HashMap;
use vstd::prelude::*;
use vstd::slice::{slice_subrange, slice_to_vec};

verus! {

/// What can go wrong while an archive is put together.
#[derive(Debug)]
pub enum FarcWriterError {
    /// The SIR0 codec could not write its footer.
    Sir0WriteFooterError(Sir0WriteFooterError),
    /// A sub-file could not be read from the archive that the writer was
    /// built from.
    FarcError(FarcError),
    /// An offset, a length or a count does not fit in 32 bits: the archive
    /// would be larger than the format can describe.
    TooBig,
}

/// The two regions of an archive before the SIR0 codec has added its footer
/// and header to the meta region.
#[derive(Debug)]
pub struct FarcLayout {
    /// The storage region.
    pub storage: Vec<u8>,
    /// The meta region up to the footer, its first sixteen bytes still zero.
    pub meta: Vec<u8>,
    /// The positions in the meta region that hold a pointer.
    pub pointers: Vec<u32>,
    /// Where the content header starts in the meta region.
    pub header_position: u32,
    /// Where the footer starts in the meta region.
    pub footer_position: u32,
}

/// Puts `key` at its place in an ascending list that does not hold it yet.
fn insert_sorted(keys: &mut Vec<u32>, key: u32)
    requires
        ascending(old(keys)@),
        !old(keys)@.contains(key),
    ensures
        ascending(final(keys)@),
        forall|k: u32| final(keys)@.contains(k) <==> (old(keys)@.contains(k) || k == key),
{
    let mut at: usize = 0;
    while at < keys.len() && keys[at] < key
        invariant
            at <= keys.len(),
            keys@ == old(keys)@,
            forall|i: int| 0 <= i < at ==> keys[i] < key,
        decreases keys.len() - at,
    {
        at += 1;
    }
    proof {
        if at < keys.len() {
            assert(keys@.contains(keys[at as int]));
        }
    }
    keys.insert(at, key);
    proof {
        let before = old(keys)@;
        let after = keys@;
        assert(after == before.insert(at as int, key));
        assert forall|k: u32| after.contains(k) <==> (before.contains(k) || k == key) by {
            if after.contains(k) {
                let i = choose|i: int| 0 <= i < after.len() && after[i] == k;
                if i < at {
                    assert(before[i] == k);
                } else if i > at {
                    assert(before[i - 1] == k);
                }
            }
            if before.contains(k) {
                let i = choose|i: int| 0 <= i < before.len() && before[i] == k;
                if i < at {
                    assert(after[i] == k);
                } else {
                    assert(after[i + 1] == k);
                }
            }
            if k == key {
                assert(after[at as int] == k);
            }
        }
        assert forall|i: int, j: int| 0 <= i < j < after.len() implies after[i] < after[j] by {
            let bi = if i < at { i } else { i - 1 };
            let bj = if j < at { j } else { j - 1 };
            if i != at && j != at {
                assert(before[bi] < before[bj]);
            } else if i == at {
                assert(before.contains(before[bj]));
                assert(before[at as int] <= before[bj]);
            }
        }
    }
}

/// The number of zero bytes between the meta region and the storage region.
fn storage_gap(meta_length: u32) -> (gap: u32)
    ensures
        gap == padding_to(0x80 + meta_length, 256),
        gap < 256,
{
    let unpadded: u64 = 0x80 + meta_length as u64;
    let over: u64 = unpadded % 256;
    if over != 0 {
        (256 - over) as u32
    } else {
        0
    }
}

/// Writes the 128 bytes at the start of an archive.
fn write_outer_header(meta_length: u32, storage_start: u32, declared_length: u32) -> (out: Vec<u8>)
    ensures
        out@ == outer_header(meta_length, storage_start, declared_length),
{
    reveal(outer_header);
    let mut out: Vec<u8> = Vec::new();
    out.push(0x46);
    out.push(0x41);
    out.push(0x52);
    out.push(0x43);
    assert(out@ =~= seq![0x46u8, 0x41u8, 0x52u8, 0x43u8]);
    push_u32_le(&mut out, 0);
    push_u32_le(&mut out, 0);
    push_u32_le(&mut out, 2);
    push_u32_le(&mut out, 0);
    push_u32_le(&mut out, 0);
    push_u32_le(&mut out, 7);
    let ghost unknown = out@;
    out.push(0xA4);
    out.push(0x3C);
    out.push(0xEA);
    out.push(0x77);
    assert(out@ =~= unknown + seq![0xA4u8, 0x3Cu8, 0xEAu8, 0x77u8]);
    push_u32_le(&mut out, 5);
    push_u32_le(&mut out, 0x80);
    push_u32_le(&mut out, meta_length);
    push_u32_le(&mut out, storage_start);
    push_u32_le(&mut out, declared_length);
    push_zeros(&mut out, 0x80 - 0x34);
    out
}

/// The content of an archive to write: the bytes of each sub-file under the
/// hash of its name. Only hash-indexed archives can be written.
#[derive(Debug)]
pub struct FarcWriter {
    hashed_files: HashMap<u32, Vec<u8>>,
}

impl View for FarcWriter {
    type V = Map<u32, Seq<u8>>;

    closed spec fn view(&self) -> Map<u32, Seq<u8>> {
        self.hashed_files@.map_values(|content: Vec<u8>| content@)
    }
}

impl Default for FarcWriter {
    fn default() -> (writer: Self)
        ensures
            writer@ == Map::<u32, Seq<u8>>::empty(),
    {
        FarcWriter::new()
    }
}

impl FarcWriter {
    /// A writer without any sub-file.
    pub fn new() -> (writer: Self)
        ensures
            writer@ == Map::<u32, Seq<u8>>::empty(),
    {
        let writer = FarcWriter { hashed_files: HashMap::new() };
        assert(writer@ =~= Map::<u32, Seq<u8>>::empty());
        writer
    }

    /// A writer with every sub-file of `farc`, each under its hash. A
    /// sub-file whose bytes are not all inside the archive stops it.
    pub fn new_from_farc(farc: &Farc) -> (r: Result<Self, FarcWriterError>)
        ensures
            match r {
                Ok(writer) => all_readable(farc.data(), farc.entries()) && writer@
                    == archive_files(farc.data(), farc.entries()),
                Err(e) => {
                    &&& !all_readable(farc.data(), farc.entries())
                    &&& e matches FarcWriterError::FarcError(inner)
                    &&& inner@ == FarcFailure::PartitionCreationError
                },
            },
    {
        let mut farc_writer = Self::new();
        let hashes = farc.iter_all_hash();
        let ghost data = farc.data();
        let ghost entries = farc.entries();
        assert(archive_files(data, entries.take(0)) =~= Map::<u32, Seq<u8>>::empty());
        let mut i: usize = 0;
        while i < hashes.len()
            invariant
                i <= hashes.len(),
                data == farc.data(),
                entries == farc.entries(),
                valid_entries(entries),
                hashes@.len() == entries.len(),
                forall|j: int| 0 <= j < entries.len() ==> hashes@[j] == entries[j].name_hash,
                all_readable(data, entries.take(i as int)),
                farc_writer@ == archive_files(data, entries.take(i as int)),
            decreases hashes.len() - i,
        {
            let file_hash = hashes[i];
            proof {
                lemma_position_of_hash(entries, i as int);
                lemma_archive_files_step(data, entries, i as int);
            }
            let file = match farc.get_hashed_file(file_hash) {
                Ok(file) => file,
                Err(e) => {
                    return Err(FarcWriterError::FarcError(e));
                },
            };
            let buffer = slice_to_vec(file);
            farc_writer.add_hashed_file(file_hash, buffer);
            proof {
                assert forall|j: int| 0 <= j < i + 1 implies extent_in(
                    #[trigger] entries.take(i + 1)[j],
                    data.len(),
                ) by {
                    if j < i {
                        assert(entries.take(i as int)[j] == entries[j]);
                    }
                }
            }
            i += 1;
        }
        proof {
            assert(entries.take(i as int) =~= entries);
        }
        Ok(farc_writer)
    }

    /// Adds a sub-file under the hash of its name, in place of the one that was
    /// there under that hash, if any.
    pub fn add_hashed_file(&mut self, hash: u32, content: Vec<u8>)
        ensures
            final(self)@ == old(self)@.insert(hash, content@),
    {
        self.hashed_files.insert(hash, content);
        assert(self@ =~= old(self)@.insert(hash, content@));
    }

    /// The hashes of the sub-files, smallest first.
    pub fn sorted_hashes(&self) -> (keys: Vec<u32>)
        ensures
            keys@ == sorted_keys(self@.dom()),
            is_sorted_keys(keys@, self@.dom()),
    {
        let mut keys: Vec<u32> = Vec::new();
        for key in it: self.hashed_files.keys()
            invariant
                ascending(keys@),
                it.seq().unref().to_set() == self.hashed_files@.dom(),
                it.seq().no_duplicates(),
                forall|k: u32|
                    keys@.contains(k) <==> exists|i: int|
                        0 <= i < it.index() && *it.seq()[i] == k,
                it.index() == it.seq().len() ==> is_sorted_keys(
                    keys@,
                    self.hashed_files@.dom(),
                ),
        {
            insert_sorted(&mut keys, *key);
            assert forall|k: u32| it.index() + 1 == it.seq().len() implies (keys@.contains(k)
                <==> self.hashed_files@.dom().contains(k)) by {
                if keys@.contains(k) {
                    let i = choose|i: int| 0 <= i <= it.index() && *it.seq()[i] == k;
                    assert(it.seq().unref()[i] == k);
                    assert(it.seq().unref().contains(k));
                }
                if self.hashed_files@.dom().contains(k) {
                    assert(it.seq().unref().to_set().contains(k));
                    assert(it.seq().unref().contains(k));
                    let i = choose|i: int|
                        0 <= i < it.seq().unref().len() && it.seq().unref()[i] == k;
                    assert(*it.seq()[i] == k);
                }
            }
        }
        proof {
            assert(self@.dom() =~= self.hashed_files@.dom());
            assert(is_sorted_keys(keys@, self@.dom()));
            lemma_sorted_keys_unique(keys@, sorted_keys(self@.dom()), self@.dom());
        }
        keys
    }

    /// Lays out the storage region and the meta region up to the footer, the
    /// sub-files in the order of their hashes.
    pub fn layout(&self) -> (r: Result<FarcLayout, FarcWriterError>)
        ensures
            match r {
                Ok(l) => {
                    let keys = sorted_keys(self@.dom());
                    &&& layout_fits(self@)
                    &&& l.storage@ == storage_region(keys, self@)
                    &&& l.meta@ == meta_body(keys, self@)
                    &&& l.pointers@ == relocation_pointers(keys, self@)
                    &&& l.header_position == meta_table(keys, self@).len()
                    &&& l.footer_position == meta_body(keys, self@).len()
                },
                Err(e) => e is TooBig && !layout_fits(self@),
            },
    {
        let keys = self.sorted_hashes();
        let ghost files = self@;
        let mut storage: Vec<u8> = Vec::new();
        let mut meta: Vec<u8> = Vec::new();
        push_zeros(&mut meta, 16);
        assert(meta@ =~= zeros(16) + table_region(keys@.take(0), files));
        let mut i: usize = 0;
        while i < keys.len()
            invariant
                i <= keys.len(),
                files == self@,
                is_sorted_keys(keys@, files.dom()),
                keys@ == sorted_keys(files.dom()),
                storage@ == storage_region(keys@.take(i as int), files),
                storage@.len() <= u32::MAX,
                meta@ == zeros(16) + table_region(keys@.take(i as int), files),
            decreases keys.len() - i,
        {
            let key = keys[i];
            proof {
                assert(keys@.contains(key));
                assert(self.hashed_files@.dom().contains(key));
                assert(keys@.take(i + 1).drop_last() =~= keys@.take(i as int));
                assert(keys@.take(i + 1).last() == key);
            }
            let found = self.hashed_files.get(&key);
            let content = found.unwrap();
            assert(content@ == files[key]);
            let start: usize = storage.len();
            storage.extend_from_slice(content.as_slice());
            pad_to_16(&mut storage);
            if storage.len() > 0xFFFF_FFFF {
                proof {
                    lemma_storage_region_grows(keys@, files, i + 1);
                }
                return Err(FarcWriterError::TooBig);
            }
            push_u32_le(&mut meta, key);
            push_u32_le(&mut meta, start as u32);
            push_u32_le(&mut meta, content.len() as u32);
            proof {
                assert(meta@ =~= zeros(16) + table_region(keys@.take(i + 1), files));
            }
            i += 1;
        }
        proof {
            assert(keys@.take(i as int) =~= keys@);
            lemma_table_region_len(keys@, files);
        }
        pad_to_16(&mut meta);
        if meta.len() > 0xFFFF_FFFF {
            return Err(FarcWriterError::TooBig);
        }
        let header_position: u32 = meta.len() as u32;
        push_u32_le(&mut meta, 0x10);
        push_u32_le(&mut meta, keys.len() as u32);
        push_u32_le(&mut meta, 1);
        assert(meta@ =~= meta_table(keys@, files) + content_header(keys@.len() as u32));
        pad_to_16(&mut meta);
        if meta.len() > 0xFFFF_FFFF {
            return Err(FarcWriterError::TooBig);
        }
        let footer_position: u32 = meta.len() as u32;
        let mut pointers: Vec<u32> = Vec::new();
        pointers.push(4);
        pointers.push(8);
        pointers.push(header_position);
        assert(pointers@ =~= relocation_pointers(keys@, files));
        Ok(FarcLayout { storage, meta, pointers, header_position, footer_position })
    }

    /// Puts the archive together from its two regions and the footer that the
    /// SIR0 codec wrote for the meta region.
    pub fn finish(layout: FarcLayout, footer: Vec<u8>) -> (r: Result<Vec<u8>, FarcWriterError>)
        ensures
            match r {
                Ok(out) => {
                    let meta = meta_region(
                        layout.meta@,
                        footer@,
                        layout.header_position,
                        layout.footer_position,
                    );
                    &&& archive_fits(meta, layout.storage@)
                    &&& out@ == archive_bytes(meta, layout.storage@)
                },
                Err(e) => e is TooBig && !archive_fits(
                    meta_region(
                        layout.meta@,
                        footer@,
                        layout.header_position,
                        layout.footer_position,
                    ),
                    layout.storage@,
                ),
            },
    {
        let FarcLayout { storage, meta: mut body, pointers: _, header_position, footer_position } =
            layout;
        body.extend_from_slice(footer.as_slice());
        pad_to_16(&mut body);
        let mut meta: Vec<u8> = write_header(header_position, footer_position);
        if body.len() >= 12 {
            meta.extend_from_slice(slice_subrange(body.as_slice(), 12, body.len()));
        }
        assert(meta@ =~= meta_region(layout.meta@, footer@, header_position, footer_position));
        if meta.len() > 0xFFFF_FFFF || storage.len() > 0xFFFF_FFFF - 112 {
            return Err(FarcWriterError::TooBig);
        }
        let meta_length: u32 = meta.len() as u32;
        let gap: u32 = storage_gap(meta_length);
        if 0x80 + meta_length as u64 + gap as u64 > 0xFFFF_FFFF {
            return Err(FarcWriterError::TooBig);
        }
        let start: u32 = 0x80 + meta_length + gap;
        let declared_length: u32 = storage.len() as u32 + 112;
        let mut out: Vec<u8> = write_outer_header(meta_length, start, declared_length);
        out.extend_from_slice(meta.as_slice());
        push_zeros(&mut out, gap as usize);
        out.extend_from_slice(storage.as_slice());
        Ok(out)
    }

    /// Serialises the archive: the outer header, the meta region with the
    /// file table inside a SIR0 container, and the storage region, the
    /// sub-files in the order of their hashes.
    pub fn write_hashed(&self) -> (r: Result<Vec<u8>, FarcWriterError>)
        ensures
            match r {
                Ok(out) => written_archive(self@) == Some(out@),
                Err(e) => e is TooBig && written_archive(self@) is None,
            },
    {
        let layout = match self.layout() {
            Ok(layout) => layout,
            Err(e) => {
                return Err(e);
            },
        };
        proof {
            lemma_table_region_len(sorted_keys(self@.dom()), self@);
        }
        let footer = match write_footer(layout.pointers.as_slice()) {
            Ok(footer) => footer,
            Err(e) => {
                return Err(FarcWriterError::Sir0WriteFooterError(e));
            },
        };
        Self::finish(layout, footer)
    }
}

} // verus!
