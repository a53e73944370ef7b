//! What the parser reads in an archive that the writer wrote.

use crate::bytes::{
    lemma_u32_le_round_trip, padded, padding_to, spec_read_u32, u32_from_le, u32_le_bytes, zeros,
};
use crate::farc::{extent_in, extent_of, parsed_archive, FarcFailure};
use crate::farc_file::FarcFileView;
use crate::farc_header::{farc_magic, spec_parse_header, FarcHeader, ReadHeaderError};
use crate::file_name_index::{
    add_result, has_hash, position_of_hash, valid_entries, FileNameConflict,
};
use crate::file_table::{
    spec_read_file_table, spec_table_header, table_entries, with_table_entry, TableHeader,
};
use crate::layout::{
    all_readable, archive_bytes, archive_files, archive_fits, archive_with_footer, ascending,
    content_header, is_sorted_keys, lemma_archive_files_count, lemma_sorted_keys_exist,
    lemma_table_region_len, meta_body,
    meta_region, meta_table, outer_header, sorted_keys, storage_region, storage_start,
    table_entry, table_region,
};
use crate::sir0::{sir0_content_header, sir0_header_bytes};
use vstd::prelude::*;

verus! {

/// What stands in the first part of a sequence is not changed by what is
/// appended.
pub proof fn lemma_subrange_kept(first: Seq<u8>, second: Seq<u8>, from: int, to: int)
    requires
        0 <= from <= to <= first.len(),
    ensures
        (first + second).subrange(from, to) == first.subrange(from, to),
{
    assert((first + second).subrange(from, to) =~= first.subrange(from, to));
}

/// A little-endian field that was appended is read back from there.
pub proof fn lemma_read_appended(before: Seq<u8>, value: u32)
    ensures
        (before + u32_le_bytes(value)).subrange(before.len() as int, before.len() as int + 4)
            == u32_le_bytes(value),
        u32_from_le(u32_le_bytes(value)) == value,
        (before + u32_le_bytes(value)).len() == before.len() + 4,
{
    lemma_u32_le_round_trip(value);
    assert((before + u32_le_bytes(value)).subrange(before.len() as int, before.len() as int + 4)
        =~= u32_le_bytes(value));
}

/// The outer header that the writer puts at the start of an archive is read
/// back with the fields that it was written with.
pub proof fn lemma_outer_header_read_back(
    meta_length: u32,
    start: u32,
    declared_length: u32,
    rest: Seq<u8>,
)
    ensures
        outer_header(meta_length, start, declared_length).len() == 0x80,
        spec_parse_header(outer_header(meta_length, start, declared_length) + rest) == Ok::<
            FarcHeader,
            ReadHeaderError,
        >(
            FarcHeader {
                sir0_type: 5,
                sir0_offset: 0x80,
                sir0_length: meta_length,
                all_data_offset: start,
                all_data_length: declared_length,
            },
        ),
{
    reveal(outer_header);
    let magic = seq![0x46u8, 0x41u8, 0x52u8, 0x43u8];
    let h0 = magic + u32_le_bytes(0) + u32_le_bytes(0) + u32_le_bytes(2) + u32_le_bytes(0)
        + u32_le_bytes(0) + u32_le_bytes(7);
    let h1 = h0 + seq![0xA4u8, 0x3Cu8, 0xEAu8, 0x77u8];
    let h2 = h1 + u32_le_bytes(5);
    let h3 = h2 + u32_le_bytes(0x80);
    let h4 = h3 + u32_le_bytes(meta_length);
    let h5 = h4 + u32_le_bytes(start);
    let h6 = h5 + u32_le_bytes(declared_length);
    let h7 = h6 + zeros(0x80 - 0x34);
    let data = h7 + rest;
    assert(h0.len() == 28);
    assert(h0.subrange(0, 4) =~= magic);
    lemma_subrange_kept(h0, seq![0xA4u8, 0x3Cu8, 0xEAu8, 0x77u8], 0, 4);
    lemma_read_appended(h1, 5);
    lemma_read_appended(h2, 0x80);
    lemma_read_appended(h3, meta_length);
    lemma_read_appended(h4, start);
    lemma_read_appended(h5, declared_length);
    lemma_subrange_kept(h1, u32_le_bytes(5), 0, 4);
    lemma_subrange_kept(h2, u32_le_bytes(0x80), 0, 4);
    lemma_subrange_kept(h2, u32_le_bytes(0x80), 0x20, 0x24);
    lemma_subrange_kept(h3, u32_le_bytes(meta_length), 0, 4);
    lemma_subrange_kept(h3, u32_le_bytes(meta_length), 0x20, 0x24);
    lemma_subrange_kept(h3, u32_le_bytes(meta_length), 0x24, 0x28);
    lemma_subrange_kept(h4, u32_le_bytes(start), 0, 4);
    lemma_subrange_kept(h4, u32_le_bytes(start), 0x20, 0x24);
    lemma_subrange_kept(h4, u32_le_bytes(start), 0x24, 0x28);
    lemma_subrange_kept(h4, u32_le_bytes(start), 0x28, 0x2C);
    lemma_subrange_kept(h5, u32_le_bytes(declared_length), 0, 4);
    lemma_subrange_kept(h5, u32_le_bytes(declared_length), 0x20, 0x24);
    lemma_subrange_kept(h5, u32_le_bytes(declared_length), 0x24, 0x28);
    lemma_subrange_kept(h5, u32_le_bytes(declared_length), 0x28, 0x2C);
    lemma_subrange_kept(h5, u32_le_bytes(declared_length), 0x2C, 0x30);
    lemma_subrange_kept(h6, zeros(0x80 - 0x34), 0, 4);
    lemma_subrange_kept(h6, zeros(0x80 - 0x34), 0x20, 0x24);
    lemma_subrange_kept(h6, zeros(0x80 - 0x34), 0x24, 0x28);
    lemma_subrange_kept(h6, zeros(0x80 - 0x34), 0x28, 0x2C);
    lemma_subrange_kept(h6, zeros(0x80 - 0x34), 0x2C, 0x30);
    lemma_subrange_kept(h6, zeros(0x80 - 0x34), 0x30, 0x34);
    lemma_subrange_kept(h7, rest, 0, 4);
    lemma_subrange_kept(h7, rest, 0x20, 0x24);
    lemma_subrange_kept(h7, rest, 0x24, 0x28);
    lemma_subrange_kept(h7, rest, 0x28, 0x2C);
    lemma_subrange_kept(h7, rest, 0x2C, 0x30);
    lemma_subrange_kept(h7, rest, 0x30, 0x34);
    assert(h7 == outer_header(meta_length, start, declared_length));
    assert(data.subrange(0, 4) == farc_magic());
    assert(spec_read_u32(data, 0x20) == Some(5u32));
    assert(spec_read_u32(data, 0x24) == Some(0x80u32));
    assert(spec_read_u32(data, 0x28) == Some(meta_length));
    assert(spec_read_u32(data, 0x2C) == Some(start));
    assert(spec_read_u32(data, 0x30) == Some(declared_length));
}

/// Where each sub-file starts in the storage region: after the ones before
/// it and their padding.
pub open spec fn file_start(keys: Seq<u32>, files: Map<u32, Seq<u8>>, i: int) -> int {
    storage_region(keys.take(i), files).len() as int
}

/// The storage region holds each sub-file where the file table says.
pub proof fn lemma_storage_holds_file(keys: Seq<u32>, files: Map<u32, Seq<u8>>, i: int)
    requires
        0 <= i < keys.len(),
    ensures
        file_start(keys, files, i) + files[keys[i]].len() <= storage_region(keys, files).len(),
        storage_region(keys, files).subrange(
            file_start(keys, files, i),
            file_start(keys, files, i) + files[keys[i]].len(),
        ) == files[keys[i]],
    decreases keys.len(),
{
    let whole = storage_region(keys, files);
    let before = storage_region(keys.drop_last(), files);
    let last = files[keys.last()];
    assert(whole == padded(before + last, 16));
    if i == keys.len() - 1 {
        assert(keys.take(i) =~= keys.drop_last());
        assert(whole.subrange(before.len() as int, (before.len() + last.len()) as int) =~= last);
    } else {
        lemma_storage_holds_file(keys.drop_last(), files, i);
        assert(keys.drop_last().take(i) =~= keys.take(i));
        let start = file_start(keys, files, i);
        let content = files[keys[i]];
        assert(whole.subrange(start, start + content.len()) =~= before.subrange(
            start,
            start + content.len(),
        ));
    }
}

/// The file table holds the record of each sub-file at twelve times its rank.
pub proof fn lemma_table_holds_record(keys: Seq<u32>, files: Map<u32, Seq<u8>>, i: int)
    requires
        0 <= i < keys.len(),
    ensures
        table_region(keys, files).len() == 12 * keys.len(),
        table_region(keys, files).subrange(12 * i, 12 * i + 12) == table_entry(
            keys[i],
            file_start(keys, files, i) as u32,
            files[keys[i]].len() as u32,
        ),
    decreases keys.len(),
{
    let whole = table_region(keys, files);
    let before = table_region(keys.drop_last(), files);
    lemma_table_region_len(keys, files);
    lemma_table_region_len(keys.drop_last(), files);
    if i == keys.len() - 1 {
        assert(keys.take(i) =~= keys.drop_last());
        assert(whole.subrange(12 * i, 12 * i + 12) =~= table_entry(
            keys[i],
            file_start(keys, files, i) as u32,
            files[keys[i]].len() as u32,
        ));
    } else {
        lemma_table_holds_record(keys.drop_last(), files, i);
        assert(keys.drop_last().take(i) =~= keys.take(i));
        assert(whole.subrange(12 * i, 12 * i + 12) =~= before.subrange(12 * i, 12 * i + 12));
    }
}

/// The three fields of a record are read back from where it stands.
pub proof fn lemma_read_record(data: Seq<u8>, pos: int, hash: u32, start: u32, length: u32)
    requires
        0 <= pos,
        pos + 12 <= data.len(),
        data.subrange(pos, pos + 12) == table_entry(hash, start, length),
    ensures
        spec_read_u32(data, pos) == Some(hash),
        spec_read_u32(data, pos + 4) == Some(start),
        spec_read_u32(data, pos + 8) == Some(length),
{
    let record = data.subrange(pos, pos + 12);
    lemma_u32_le_round_trip(hash);
    lemma_u32_le_round_trip(start);
    lemma_u32_le_round_trip(length);
    assert(data.subrange(pos, pos + 4) =~= record.subrange(0, 4));
    assert(data.subrange(pos + 4, pos + 8) =~= record.subrange(4, 8));
    assert(data.subrange(pos + 8, pos + 12) =~= record.subrange(8, 12));
    assert(record.subrange(0, 4) =~= u32_le_bytes(hash));
    assert(record.subrange(4, 8) =~= u32_le_bytes(start));
    assert(record.subrange(8, 12) =~= u32_le_bytes(length));
}

/// The entries that the parser finds in an archive that holds `files` in the
/// order of `keys`, its storage region starting at `base`.
pub open spec fn written_entries(keys: Seq<u32>, files: Map<u32, Seq<u8>>, base: int) -> Seq<
    FarcFileView,
> {
    Seq::new(
        keys.len(),
        |i: int|
            FarcFileView {
                start: (base + file_start(keys, files, i)) as u32,
                length: files[keys[i]].len() as u32,
                name_hash: keys[i],
                name: None,
            },
    )
}

/// The first records of a written file table give the first written entries.
pub proof fn lemma_written_table_is_read(
    keys: Seq<u32>,
    files: Map<u32, Seq<u8>>,
    meta: Seq<u8>,
    table: TableHeader,
    base: u32,
    n: nat,
)
    requires
        ascending(keys),
        n <= keys.len(),
        table.table_offset == 16,
        table.table_kind == 1,
        16 + 12 * keys.len() <= meta.len(),
        forall|i: int|
            0 <= i < keys.len() ==> #[trigger] meta.subrange(16 + 12 * i, 28 + 12 * i)
                == table_entry(
                keys[i],
                file_start(keys, files, i) as u32,
                files[keys[i]].len() as u32,
            ),
        forall|i: int|
            0 <= i < keys.len() ==> base + #[trigger] file_start(keys, files, i) <= u32::MAX,
    ensures
        table_entries(meta, table, base, n) == Ok::<Seq<FarcFileView>, FarcFailure>(
            written_entries(keys, files, base as int).take(n as int),
        ),
    decreases n,
{
    let all = written_entries(keys, files, base as int);
    if n == 0 {
        assert(all.take(0) =~= Seq::<FarcFileView>::empty());
    } else {
        let i = (n - 1) as int;
        lemma_written_table_is_read(keys, files, meta, table, base, (n - 1) as nat);
        let before = all.take(i);
        let pos = 16 + 12 * i;
        assert(meta.subrange(16 + 12 * i, 28 + 12 * i) == table_entry(
            keys[i],
            file_start(keys, files, i) as u32,
            files[keys[i]].len() as u32,
        ));
        lemma_read_record(
            meta,
            pos,
            keys[i],
            file_start(keys, files, i) as u32,
            files[keys[i]].len() as u32,
        );
        assert(base + file_start(keys, files, i) <= u32::MAX);
        let file = FarcFileView {
            start: (base + file_start(keys, files, i)) as u32,
            length: files[keys[i]].len() as u32,
            name_hash: keys[i],
            name: None,
        };
        assert(!has_hash(before, keys[i])) by {
            if has_hash(before, keys[i]) {
                let j = position_of_hash(before, keys[i]);
                assert(before[j].name_hash == keys[j]);
                assert(keys[j] < keys[i]);
            }
        }
        assert(add_result(before, file) == Ok::<Seq<FarcFileView>, FileNameConflict>(
            before.push(file),
        ));
        assert(before.push(file) =~= all.take(n as int));
        assert(with_table_entry(before, meta, pos, 1, base) == Ok::<Seq<FarcFileView>, FarcFailure>(
            all.take(n as int),
        )) by {
            reveal(with_table_entry);
        }
    }
}

/// The written entries are valid, every one of them can be read from an
/// archive that holds the storage region at `base`, and together they hold
/// `files`.
pub proof fn lemma_written_entries_hold_files(
    keys: Seq<u32>,
    files: Map<u32, Seq<u8>>,
    data: Seq<u8>,
    base: u32,
)
    requires
        is_sorted_keys(keys, files.dom()),
        storage_region(keys, files).len() <= u32::MAX,
        forall|i: int|
            0 <= i < keys.len() ==> base + #[trigger] file_start(keys, files, i) <= u32::MAX,
        data.len() == base + storage_region(keys, files).len(),
        data.subrange(base as int, data.len() as int) == storage_region(keys, files),
    ensures
        valid_entries(written_entries(keys, files, base as int)),
        all_readable(data, written_entries(keys, files, base as int)),
        archive_files(data, written_entries(keys, files, base as int)) == files,
{
    let entries = written_entries(keys, files, base as int);
    let storage = storage_region(keys, files);
    assert forall|i: int| 0 <= i < entries.len() implies extent_in(
        #[trigger] entries[i],
        data.len(),
    ) && extent_of(data, entries[i]) == files[keys[i]] by {
        lemma_storage_holds_file(keys, files, i);
        let start = file_start(keys, files, i);
        let content = files[keys[i]];
        assert(data.subrange(base + start, base + start + content.len()) =~= storage.subrange(
            start,
            start + content.len(),
        ));
    }
    assert(valid_entries(entries));
    let read = archive_files(data, entries);
    assert forall|hash: u32| read.dom().contains(hash) <==> files.dom().contains(hash) by {
        if has_hash(entries, hash) {
            let i = position_of_hash(entries, hash);
            assert(keys[i] == hash);
            assert(keys.contains(hash));
        }
        if files.dom().contains(hash) {
            assert(keys.contains(hash));
            let i = choose|i: int| 0 <= i < keys.len() && keys[i] == hash;
            assert(entries[i].name_hash == hash);
        }
    }
    assert forall|hash: u32| read.dom().contains(hash) implies read[hash] == files[hash] by {
        let i = position_of_hash(entries, hash);
        assert(keys[i] == hash);
    }
    assert(read =~= files);
}

/// Padding appends less than sixteen bytes, up to a multiple of 16, and
/// keeps what was there.
pub proof fn lemma_padded(bytes: Seq<u8>)
    ensures
        padded(bytes, 16).len() % 16 == 0,
        bytes.len() <= padded(bytes, 16).len() < bytes.len() + 16,
        padded(bytes, 16).subrange(0, bytes.len() as int) == bytes,
{
    assert(padded(bytes, 16).subrange(0, bytes.len() as int) =~= bytes);
}

/// Twelve bytes appended at a multiple of 16 and padded make sixteen bytes,
/// and what was there before is kept.
pub proof fn lemma_padded_fields(upper: Seq<u8>, fields: Seq<u8>)
    requires
        upper.len() % 16 == 0,
        fields.len() == 12,
    ensures
        padded(upper + fields, 16).len() == upper.len() + 16,
        padded(upper + fields, 16).subrange(0, upper.len() as int) == upper,
        padded(upper + fields, 16).subrange(upper.len() as int, upper.len() as int + 12)
            == fields,
{
    let body = padded(upper + fields, 16);
    assert(body.subrange(0, upper.len() as int) =~= upper);
    assert(body.subrange(upper.len() as int, upper.len() as int + 12) =~= fields);
}

/// Where the pieces of a written meta region stand before the footer: the
/// records of the file table from offset 16 on, then the content header at
/// a multiple of 16, and sixteen bytes later the end.
pub proof fn lemma_meta_body_layout(keys: Seq<u32>, files: Map<u32, Seq<u8>>)
    ensures
        ({
            let header_position = meta_table(keys, files).len() as int;
            let body = meta_body(keys, files);
            &&& 16 + 12 * keys.len() <= header_position
            &&& body.len() == header_position + 16
            &&& body.subrange(header_position, header_position + 12) == content_header(
                keys.len() as u32,
            )
            &&& body.subrange(16, 16 + 12 * keys.len() as int) == table_region(keys, files)
        }),
{
    let table = table_region(keys, files);
    let reserved = zeros(16) + table;
    let upper = meta_table(keys, files);
    let count = content_header(keys.len() as u32);
    let body = meta_body(keys, files);
    let end = 16 + 12 * keys.len() as int;
    lemma_table_region_len(keys, files);
    assert(reserved.len() == end);
    assert(count.len() == 12);
    assert(upper == padded(reserved, 16));
    assert(body == padded(upper + count, 16));
    lemma_padded(reserved);
    lemma_padded_fields(upper, count);
    assert(body.subrange(16, end) == table) by {
        assert(reserved.subrange(16, end) =~= table);
        assert(upper.subrange(0, end).subrange(16, end) =~= upper.subrange(16, end));
        assert(body.subrange(0, upper.len() as int).subrange(16, end) =~= body.subrange(16, end));
    }
}

/// Footer, padding and the SIR0 header change nothing in the body of a meta
/// region after its first twelve bytes.
pub proof fn lemma_meta_region_keeps_body(
    body: Seq<u8>,
    footer: Seq<u8>,
    header_position: u32,
    footer_position: u32,
    from: int,
    to: int,
)
    requires
        12 <= from <= to <= body.len(),
    ensures
        body.len() <= meta_region(body, footer, header_position, footer_position).len(),
        meta_region(body, footer, header_position, footer_position).len() == padded(
            body + footer,
            16,
        ).len(),
        meta_region(body, footer, header_position, footer_position).subrange(from, to)
            == body.subrange(from, to),
{
    let whole = padded(body + footer, 16);
    let header = sir0_header_bytes(header_position, footer_position);
    let meta = meta_region(body, footer, header_position, footer_position);
    lemma_padded(body + footer);
    assert(header.len() == 12);
    assert(meta == header + whole.skip(12));
    assert(meta.subrange(from, to) =~= whole.subrange(from, to));
    assert(whole.subrange(0, (body + footer).len() as int).subrange(from, to) =~= whole.subrange(
        from,
        to,
    ));
    assert((body + footer).subrange(from, to) =~= body.subrange(from, to));
}

/// Where the pieces of a written meta region stand: the records of the file
/// table from offset 16 on, the content header at the position that the SIR0
/// header gives for it, the footer sixteen bytes later.
pub proof fn lemma_meta_region_layout(keys: Seq<u32>, files: Map<u32, Seq<u8>>, footer: Seq<u8>)
    ensures
        ({
            let header_position = meta_table(keys, files).len() as int;
            let footer_position = meta_body(keys, files).len() as int;
            let meta = meta_region(
                meta_body(keys, files),
                footer,
                header_position as u32,
                footer_position as u32,
            );
            &&& 16 + 12 * keys.len() <= header_position
            &&& footer_position == header_position + 16
            &&& footer_position <= meta.len()
            &&& meta.subrange(header_position, header_position + 12) == content_header(
                keys.len() as u32,
            )
            &&& forall|i: int|
                0 <= i < keys.len() ==> #[trigger] meta.subrange(16 + 12 * i, 28 + 12 * i)
                    == table_region(keys, files).subrange(12 * i, 12 * i + 12)
        }),
{
    let table = table_region(keys, files);
    let body = meta_body(keys, files);
    let header_position = meta_table(keys, files).len() as int;
    let footer_position = body.len() as int;
    let meta = meta_region(body, footer, header_position as u32, footer_position as u32);
    lemma_meta_body_layout(keys, files);
    lemma_meta_region_keeps_body(
        body,
        footer,
        header_position as u32,
        footer_position as u32,
        header_position,
        header_position + 12,
    );
    assert forall|i: int| 0 <= i < keys.len() implies #[trigger] meta.subrange(
        16 + 12 * i,
        28 + 12 * i,
    ) == table.subrange(12 * i, 12 * i + 12) by {
        lemma_meta_region_keeps_body(
            body,
            footer,
            header_position as u32,
            footer_position as u32,
            16 + 12 * i,
            28 + 12 * i,
        );
        assert(body.subrange(16, 16 + 12 * keys.len() as int).subrange(12 * i, 12 * i + 12)
            =~= body.subrange(16 + 12 * i, 28 + 12 * i));
    }
}

/// The meta region of the archive that holds `files`, with this footer.
pub open spec fn written_meta(files: Map<u32, Seq<u8>>, footer: Seq<u8>) -> Seq<u8> {
    let keys = sorted_keys(files.dom());
    meta_region(
        meta_body(keys, files),
        footer,
        meta_table(keys, files).len() as u32,
        meta_body(keys, files).len() as u32,
    )
}

/// Whether the SIR0 codec finds the content header of a written meta region
/// between the two positions that its own header gives.
pub open spec fn codec_reads_back(files: Map<u32, Seq<u8>>, footer: Seq<u8>) -> bool {
    let keys = sorted_keys(files.dom());
    sir0_content_header(written_meta(files, footer)) == Some(
        written_meta(files, footer).subrange(
            meta_table(keys, files).len() as int,
            meta_body(keys, files).len() as int,
        ),
    )
}

/// Whether every sub-file of the written archive starts at an offset that
/// fits in 32 bits.
pub open spec fn starts_fit(files: Map<u32, Seq<u8>>, footer: Seq<u8>) -> bool {
    let keys = sorted_keys(files.dom());
    forall|i: int|
        0 <= i < keys.len() ==> storage_start(written_meta(files, footer).len() as int)
            + #[trigger] file_start(keys, files, i) <= u32::MAX
}

/// The parts of a written archive stand where its outer header says.
pub proof fn lemma_archive_parts(meta: Seq<u8>, storage: Seq<u8>)
    requires
        archive_fits(meta, storage),
    ensures
        ({
            let archive = archive_bytes(meta, storage);
            let base = storage_start(meta.len() as int);
            &&& spec_parse_header(archive) == Ok::<FarcHeader, ReadHeaderError>(
                FarcHeader {
                    sir0_type: 5,
                    sir0_offset: 0x80,
                    sir0_length: meta.len() as u32,
                    all_data_offset: base as u32,
                    all_data_length: (storage.len() + 112) as u32,
                },
            )
            &&& archive.len() == base + storage.len()
            &&& archive.subrange(0x80, 0x80 + meta.len() as int) == meta
            &&& archive.subrange(base, archive.len() as int) == storage
        }),
{
    let base = storage_start(meta.len() as int);
    let gap = zeros(padding_to(0x80 + meta.len() as int, 256));
    let outer = outer_header(meta.len() as u32, base as u32, (storage.len() + 112) as u32);
    let archive = archive_bytes(meta, storage);
    lemma_outer_header_read_back(
        meta.len() as u32,
        base as u32,
        (storage.len() + 112) as u32,
        meta + gap + storage,
    );
    assert(archive == outer + meta + gap + storage);
    assert(archive =~= outer + (meta + gap + storage));
    assert(archive.subrange(0x80, 0x80 + meta.len() as int) =~= meta);
    assert(archive.subrange(base, archive.len() as int) =~= storage);
}

/// The file table of a written meta region is read back as the written
/// entries, given the content header that the SIR0 codec is to find.
pub proof fn lemma_written_meta_is_read(
    keys: Seq<u32>,
    files: Map<u32, Seq<u8>>,
    footer: Seq<u8>,
    base: u32,
)
    requires
        ascending(keys),
        meta_body(keys, files).len() <= u32::MAX,
        forall|i: int|
            0 <= i < keys.len() ==> base + #[trigger] file_start(keys, files, i) <= u32::MAX,
    ensures
        ({
            let header_position = meta_table(keys, files).len() as int;
            let footer_position = meta_body(keys, files).len() as int;
            let meta = meta_region(
                meta_body(keys, files),
                footer,
                header_position as u32,
                footer_position as u32,
            );
            spec_read_file_table(meta.subrange(header_position, footer_position), meta, base)
                == Ok::<Seq<FarcFileView>, FarcFailure>(written_entries(keys, files, base as int))
        }),
{
    let header_position = meta_table(keys, files).len() as int;
    let footer_position = meta_body(keys, files).len() as int;
    let meta = meta_region(
        meta_body(keys, files),
        footer,
        header_position as u32,
        footer_position as u32,
    );
    let entries = written_entries(keys, files, base as int);
    let h = meta.subrange(header_position, footer_position);
    let table = TableHeader { table_offset: 16, entry_count: keys.len() as u32, table_kind: 1 };
    lemma_meta_region_layout(keys, files, footer);
    assert(spec_table_header(h) == Ok::<TableHeader, FarcFailure>(table)) by {
        assert(h.subrange(0, 12) =~= meta.subrange(header_position, header_position + 12));
        assert(content_header(keys.len() as u32) == table_entry(16, keys.len() as u32, 1));
        lemma_read_record(h, 0, 16, keys.len() as u32, 1);
    }
    assert forall|i: int| 0 <= i < keys.len() implies #[trigger] meta.subrange(
        16 + 12 * i,
        28 + 12 * i,
    ) == table_entry(keys[i], file_start(keys, files, i) as u32, files[keys[i]].len() as u32) by {
        lemma_table_holds_record(keys, files, i);
    }
    lemma_written_table_is_read(keys, files, meta, table, base, keys.len());
    assert(entries.take(keys.len() as int) =~= entries);
}

/// Round trip. Let an archive be written for `files` with the footer
/// `footer`. If the SIR0 codec finds the content header where its header
/// points, and every sub-file starts at an offset that fits in 32 bits, then
/// parsing the archive succeeds, gives as many entries as there are
/// sub-files, every entry can be read, and the bytes read under each hash are
/// those that were written under it.
pub proof fn law_written_archive_is_read_back(files: Map<u32, Seq<u8>>, footer: Seq<u8>)
    requires
        archive_with_footer(files, footer) is Some,
        codec_reads_back(files, footer),
        starts_fit(files, footer),
    ensures
        ({
            let archive = archive_with_footer(files, footer)->0;
            let entries = written_entries(
                sorted_keys(files.dom()),
                files,
                storage_start(written_meta(files, footer).len() as int),
            );
            &&& parsed_archive(archive) == Ok::<Seq<FarcFileView>, FarcFailure>(entries)
            &&& entries.len() == files.dom().len()
            &&& valid_entries(entries)
            &&& all_readable(archive, entries)
            &&& archive_files(archive, entries) == files
        }),
{
    lemma_sorted_keys_exist(files.dom());
    let keys = sorted_keys(files.dom());
    let meta = written_meta(files, footer);
    let storage = storage_region(keys, files);
    let base = storage_start(meta.len() as int);
    let archive = archive_bytes(meta, storage);
    let entries = written_entries(keys, files, base);
    assert(archive_with_footer(files, footer) == Some(archive));
    lemma_archive_parts(meta, storage);
    lemma_written_meta_is_read(keys, files, footer, base as u32);
    lemma_written_entries_hold_files(keys, files, archive, base as u32);
    assert(entries.len() == files.dom().len()) by {
        assert(keys.no_duplicates());
        keys.unique_seq_to_set();
        assert(keys.to_set() =~= files.dom());
    }
}

/// Round trip of an archive. Let `entries` be the valid index of an archive
/// `data` in which every entry can be read, and let the sub-files that it
/// holds be written again, with the footer `footer`. Under the two
/// conditions of [`law_written_archive_is_read_back`], parsing the new
/// archive gives as many entries as the index had, and under each hash the
/// bytes that the first archive held.
pub proof fn law_round_trip(data: Seq<u8>, entries: Seq<FarcFileView>, footer: Seq<u8>)
    requires
        valid_entries(entries),
        all_readable(data, entries),
        archive_with_footer(archive_files(data, entries), footer) is Some,
        codec_reads_back(archive_files(data, entries), footer),
        starts_fit(archive_files(data, entries), footer),
    ensures
        ({
            let rewritten = archive_with_footer(archive_files(data, entries), footer)->0;
            &&& parsed_archive(rewritten) is Ok
            &&& parsed_archive(rewritten)->Ok_0.len() == entries.len()
            &&& all_readable(rewritten, parsed_archive(rewritten)->Ok_0)
            &&& archive_files(rewritten, parsed_archive(rewritten)->Ok_0) == archive_files(
                data,
                entries,
            )
        }),
{
    lemma_archive_files_count(data, entries);
    law_written_archive_is_read_back(archive_files(data, entries), footer);
}

} // verus!
