//! The bytes of a written archive: what the writer lays out, stated over
//! sequences.

use crate::bytes::{padded, padding_to, u32_le_bytes, zeros};
use crate::farc::{extent_in, extent_of};
use crate::farc_file::FarcFileView;
use crate::file_name_index::{has_hash, position_of_hash, valid_entries};
use crate::sir0::{sir0_footer_bytes, sir0_header_bytes};
use vstd::prelude::*;

verus! {

/// Whether every key is smaller than the ones after it.
pub open spec fn ascending(keys: Seq<u32>) -> bool {
    forall|i: int, j: int| 0 <= i < j < keys.len() ==> keys[i] < keys[j]
}

/// Whether `keys` lists exactly the members of `dom`, smallest first.
pub open spec fn is_sorted_keys(keys: Seq<u32>, dom: Set<u32>) -> bool {
    &&& ascending(keys)
    &&& forall|k: u32| keys.contains(k) <==> dom.contains(k)
}

/// The members of `dom`, smallest first.
pub open spec fn sorted_keys(dom: Set<u32>) -> Seq<u32> {
    choose|keys: Seq<u32>| is_sorted_keys(keys, dom)
}

/// The members of `dom` below `bound`, smallest first.
pub open spec fn keys_below(dom: Set<u32>, bound: nat) -> Seq<u32>
    decreases bound,
{
    if bound == 0 {
        Seq::empty()
    } else if bound - 1 <= u32::MAX && dom.contains((bound - 1) as u32) {
        keys_below(dom, (bound - 1) as nat).push((bound - 1) as u32)
    } else {
        keys_below(dom, (bound - 1) as nat)
    }
}

/// The listing below a bound is ascending and holds the members below the
/// bound, and no others.
pub proof fn lemma_keys_below(dom: Set<u32>, bound: nat)
    ensures
        ascending(keys_below(dom, bound)),
        forall|k: u32| #[trigger]
            keys_below(dom, bound).contains(k) <==> (dom.contains(k) && k < bound),
    decreases bound,
{
    if bound > 0 {
        let rest = keys_below(dom, (bound - 1) as nat);
        lemma_keys_below(dom, (bound - 1) as nat);
        if bound - 1 <= u32::MAX && dom.contains((bound - 1) as u32) {
            let top = (bound - 1) as u32;
            let all = rest.push(top);
            assert forall|i: int, j: int| 0 <= i < j < all.len() implies all[i] < all[j] by {
                assert(rest.contains(rest[i]));
                if j < rest.len() {
                    assert(rest[i] < rest[j]);
                }
            }
            assert forall|k: u32| #[trigger]
                all.contains(k) <==> (dom.contains(k) && k < bound) by {
                if all.contains(k) {
                    let i = choose|i: int| 0 <= i < all.len() && all[i] == k;
                    if i < rest.len() {
                        assert(rest.contains(k));
                    }
                }
                if dom.contains(k) && k < bound {
                    if k == top {
                        assert(all[rest.len() as int] == k);
                    } else {
                        assert(rest.contains(k));
                        let i = choose|i: int| 0 <= i < rest.len() && rest[i] == k;
                        assert(all[i] == k);
                    }
                }
            }
        } else {
            assert forall|k: u32| #[trigger]
                rest.contains(k) <==> (dom.contains(k) && k < bound) by {
                assert(rest.contains(k) <==> (dom.contains(k) && k < bound - 1));
            }
        }
    }
}

/// Every set of hashes has an ascending listing.
pub proof fn lemma_sorted_keys_exist(dom: Set<u32>)
    ensures
        is_sorted_keys(sorted_keys(dom), dom),
{
    lemma_keys_below(dom, 0x1_0000_0000);
    assert(is_sorted_keys(keys_below(dom, 0x1_0000_0000), dom));
}

/// A set has at most one ascending listing.
pub proof fn lemma_sorted_keys_unique(a: Seq<u32>, b: Seq<u32>, dom: Set<u32>)
    requires
        is_sorted_keys(a, dom),
        is_sorted_keys(b, dom),
    ensures
        a == b,
    decreases a.len(),
{
    if a.len() == 0 {
        if b.len() > 0 {
            assert(b.contains(b[0]));
            assert(a.contains(b[0]));
        }
        assert(a =~= b);
    } else {
        let top = a.last();
        assert(a.contains(top));
        assert(b.contains(top));
        let at = choose|i: int| 0 <= i < b.len() && b[i] == top;
        if at < b.len() - 1 {
            assert(b.contains(b.last()));
            assert(a.contains(b.last()));
            let back = choose|i: int| 0 <= i < a.len() && a[i] == b.last();
            assert(a[back] <= top);
        }
        let rest = dom.remove(top);
        assert forall|k: u32| a.drop_last().contains(k) <==> rest.contains(k) by {
            if a.drop_last().contains(k) {
                let i = choose|i: int| 0 <= i < a.drop_last().len() && a.drop_last()[i] == k;
                assert(a[i] == k);
                assert(a.contains(k));
            }
            if rest.contains(k) {
                assert(a.contains(k));
                let i = choose|i: int| 0 <= i < a.len() && a[i] == k;
                assert(a.drop_last()[i] == k);
            }
        }
        assert forall|k: u32| b.drop_last().contains(k) <==> rest.contains(k) by {
            if b.drop_last().contains(k) {
                let i = choose|i: int| 0 <= i < b.drop_last().len() && b.drop_last()[i] == k;
                assert(b[i] == k);
                assert(b.contains(k));
            }
            if rest.contains(k) {
                assert(b.contains(k));
                let i = choose|i: int| 0 <= i < b.len() && b[i] == k;
                assert(b.drop_last()[i] == k);
            }
        }
        lemma_sorted_keys_unique(a.drop_last(), b.drop_last(), rest);
        assert(a =~= a.drop_last().push(top));
        assert(b =~= b.drop_last().push(top));
    }
}

/// The storage region: the content of each sub-file in the order of `keys`,
/// each followed by zero bytes up to the next multiple of 16.
pub open spec fn storage_region(keys: Seq<u32>, files: Map<u32, Seq<u8>>) -> Seq<u8>
    decreases keys.len(),
{
    if keys.len() == 0 {
        Seq::empty()
    } else {
        padded(storage_region(keys.drop_last(), files) + files[keys.last()], 16)
    }
}

/// One record of the file table: hash, start in the storage region, length.
pub open spec fn table_entry(hash: u32, start: u32, length: u32) -> Seq<u8> {
    u32_le_bytes(hash) + u32_le_bytes(start) + u32_le_bytes(length)
}

/// The file table: one record for each sub-file, in the order of `keys`.
pub open spec fn table_region(keys: Seq<u32>, files: Map<u32, Seq<u8>>) -> Seq<u8>
    decreases keys.len(),
{
    if keys.len() == 0 {
        Seq::empty()
    } else {
        table_region(keys.drop_last(), files) + table_entry(
            keys.last(),
            storage_region(keys.drop_last(), files).len() as u32,
            files[keys.last()].len() as u32,
        )
    }
}

/// The meta region up to the content header: sixteen bytes kept for the SIR0
/// header, then the file table, padded to a multiple of 16.
pub open spec fn meta_table(keys: Seq<u32>, files: Map<u32, Seq<u8>>) -> Seq<u8> {
    padded(zeros(16) + table_region(keys, files), 16)
}

/// The content header: where the table starts, how many records it has, and
/// the kind of table, which is 1 for a table of hashes.
pub open spec fn content_header(count: u32) -> Seq<u8> {
    u32_le_bytes(16) + u32_le_bytes(count) + u32_le_bytes(1)
}

/// The meta region up to the footer.
pub open spec fn meta_body(keys: Seq<u32>, files: Map<u32, Seq<u8>>) -> Seq<u8> {
    padded(meta_table(keys, files) + content_header(keys.len() as u32), 16)
}

/// The positions in the meta region that hold a pointer: the two of the SIR0
/// header, and the content header.
pub open spec fn relocation_pointers(keys: Seq<u32>, files: Map<u32, Seq<u8>>) -> Seq<u32> {
    seq![4u32, 8u32, meta_table(keys, files).len() as u32]
}

/// Whether the storage region and the meta region up to the footer can be
/// addressed with 32 bits.
pub open spec fn layout_fits(files: Map<u32, Seq<u8>>) -> bool {
    let keys = sorted_keys(files.dom());
    &&& storage_region(keys, files).len() <= u32::MAX
    &&& meta_body(keys, files).len() <= u32::MAX
}

/// `body` with its first bytes replaced by `header`, as a write at position 0
/// does it.
pub open spec fn overwrite_start(body: Seq<u8>, header: Seq<u8>) -> Seq<u8> {
    if header.len() <= body.len() {
        header + body.skip(header.len() as int)
    } else {
        header
    }
}

/// The whole meta region: body and footer, padded to a multiple of 16, with
/// the SIR0 header written over its start.
pub open spec fn meta_region(
    body: Seq<u8>,
    footer: Seq<u8>,
    header_position: u32,
    footer_position: u32,
) -> Seq<u8> {
    overwrite_start(padded(body + footer, 16), sir0_header_bytes(header_position, footer_position))
}

/// The 128 bytes at the start of an archive.
#[verifier::opaque]
pub open spec fn outer_header(meta_length: u32, storage_start: u32, declared_length: u32) -> Seq<
    u8,
> {
    seq![0x46u8, 0x41u8, 0x52u8, 0x43u8] + u32_le_bytes(0) + u32_le_bytes(0) + u32_le_bytes(2)
        + u32_le_bytes(0) + u32_le_bytes(0) + u32_le_bytes(7) + seq![0xA4u8, 0x3Cu8, 0xEAu8, 0x77u8]
        + u32_le_bytes(5) + u32_le_bytes(0x80) + u32_le_bytes(meta_length) + u32_le_bytes(
        storage_start,
    ) + u32_le_bytes(declared_length) + zeros(0x80 - 0x34)
}

/// Where the storage region starts: after the outer header and the meta
/// region, at the next multiple of 256.
pub open spec fn storage_start(meta_length: int) -> int {
    0x80 + meta_length + padding_to(0x80 + meta_length, 256)
}

/// Whether an archive of this meta and storage region can be described with
/// 32-bit fields.
pub open spec fn archive_fits(meta: Seq<u8>, storage: Seq<u8>) -> bool {
    &&& storage_start(meta.len() as int) <= u32::MAX
    &&& storage.len() + 112 <= u32::MAX
}

/// The bytes of an archive of this meta and storage region.
pub open spec fn archive_bytes(meta: Seq<u8>, storage: Seq<u8>) -> Seq<u8> {
    outer_header(
        meta.len() as u32,
        storage_start(meta.len() as int) as u32,
        (storage.len() + 112) as u32,
    ) + meta + zeros(padding_to(0x80 + meta.len() as int, 256)) + storage
}

/// The archive that holds `files`, given the footer of its meta region;
/// `None` where it is too large.
pub open spec fn archive_with_footer(files: Map<u32, Seq<u8>>, footer: Seq<u8>) -> Option<
    Seq<u8>,
> {
    let keys = sorted_keys(files.dom());
    let storage = storage_region(keys, files);
    let meta = meta_region(
        meta_body(keys, files),
        footer,
        meta_table(keys, files).len() as u32,
        meta_body(keys, files).len() as u32,
    );
    if layout_fits(files) && archive_fits(meta, storage) {
        Some(archive_bytes(meta, storage))
    } else {
        None
    }
}

/// The archive that holds `files`, with the footer that the SIR0 codec writes
/// for the pointer positions of its meta region; `None` where it is too large.
pub open spec fn written_archive(files: Map<u32, Seq<u8>>) -> Option<Seq<u8>> {
    let keys = sorted_keys(files.dom());
    if !layout_fits(files) {
        None
    } else {
        match sir0_footer_bytes(relocation_pointers(keys, files)) {
            Some(footer) => archive_with_footer(files, footer),
            None => None,
        }
    }
}

/// The storage region only grows when sub-files are appended.
pub proof fn lemma_storage_region_grows(keys: Seq<u32>, files: Map<u32, Seq<u8>>, n: int)
    requires
        0 <= n <= keys.len(),
    ensures
        storage_region(keys.take(n), files).len() <= storage_region(keys, files).len(),
    decreases keys.len() - n,
{
    if n == keys.len() {
        assert(keys.take(n) =~= keys);
    } else {
        lemma_storage_region_grows(keys, files, n + 1);
        assert(keys.take(n + 1).drop_last() =~= keys.take(n));
    }
}

/// The file table has twelve bytes for each sub-file.
pub proof fn lemma_table_region_len(keys: Seq<u32>, files: Map<u32, Seq<u8>>)
    ensures
        table_region(keys, files).len() == 12 * keys.len(),
    decreases keys.len(),
{
    if keys.len() > 0 {
        lemma_table_region_len(keys.drop_last(), files);
    }
}

/// Whether the bytes of every entry lie inside the data.
pub open spec fn all_readable(data: Seq<u8>, entries: Seq<FarcFileView>) -> bool {
    forall|i: int| 0 <= i < entries.len() ==> extent_in(#[trigger] entries[i], data.len())
}

/// The content of every entry, under its hash.
pub open spec fn archive_files(data: Seq<u8>, entries: Seq<FarcFileView>) -> Map<u32, Seq<u8>> {
    Map::new(
        |hash: u32| has_hash(entries, hash),
        |hash: u32| extent_of(data, entries[position_of_hash(entries, hash)]),
    )
}

/// A valid index gives as many sub-files as it has entries.
pub proof fn lemma_archive_files_count(data: Seq<u8>, entries: Seq<FarcFileView>)
    requires
        valid_entries(entries),
    ensures
        archive_files(data, entries).dom().finite(),
        archive_files(data, entries).dom().len() == entries.len(),
{
    let hashes = entries.map_values(|file: FarcFileView| file.name_hash);
    assert forall|i: int, j: int| 0 <= i < hashes.len() && 0 <= j < hashes.len() && i
        != j implies hashes[i] != hashes[j] by {
        if i < j {
            assert(entries[i].name_hash != entries[j].name_hash);
        } else {
            assert(entries[j].name_hash != entries[i].name_hash);
        }
    }
    hashes.unique_seq_to_set();
    assert forall|hash: u32| hashes.to_set().contains(hash) <==> has_hash(entries, hash) by {
        if hashes.contains(hash) {
            let i = choose|i: int| 0 <= i < hashes.len() && hashes[i] == hash;
            assert(entries[i].name_hash == hash);
        }
        if has_hash(entries, hash) {
            let i = position_of_hash(entries, hash);
            assert(hashes[i] == hash);
        }
    }
    assert(hashes.to_set() =~= archive_files(data, entries).dom());
}

/// In a valid index a hash is found where its entry stands.
pub proof fn lemma_position_of_hash(entries: Seq<FarcFileView>, at: int)
    requires
        valid_entries(entries),
        0 <= at < entries.len(),
    ensures
        has_hash(entries, entries[at].name_hash),
        position_of_hash(entries, entries[at].name_hash) == at,
{
    let found = position_of_hash(entries, entries[at].name_hash);
    if found < at {
        assert(entries[found].name_hash != entries[at].name_hash);
    } else if at < found {
        assert(entries[at].name_hash != entries[found].name_hash);
    }
}

/// Reading one more entry adds its content under its hash.
pub proof fn lemma_archive_files_step(data: Seq<u8>, entries: Seq<FarcFileView>, n: int)
    requires
        valid_entries(entries),
        0 <= n < entries.len(),
    ensures
        archive_files(data, entries.take(n + 1)) == archive_files(data, entries.take(n)).insert(
            entries[n].name_hash,
            extent_of(data, entries[n]),
        ),
{
    let before = entries.take(n);
    let after = entries.take(n + 1);
    let left = archive_files(data, after);
    let right = archive_files(data, before).insert(
        entries[n].name_hash,
        extent_of(data, entries[n]),
    );
    assert forall|i: int, j: int| 0 <= i < j < after.len() implies after[i].name_hash
        != after[j].name_hash by {
        assert(entries[i].name_hash != entries[j].name_hash);
    }
    assert(valid_entries(after));
    assert forall|hash: u32| left.dom().contains(hash) <==> right.dom().contains(hash) by {
        if has_hash(after, hash) {
            let i = position_of_hash(after, hash);
            if i < n {
                assert(before[i].name_hash == hash);
            }
        }
        if has_hash(before, hash) {
            let i = position_of_hash(before, hash);
            assert(after[i].name_hash == hash);
        }
        if hash == entries[n].name_hash {
            assert(after[n].name_hash == hash);
        }
    }
    assert forall|hash: u32| left.dom().contains(hash) implies left[hash] == right[hash] by {
        let i = position_of_hash(after, hash);
        lemma_position_of_hash(after, i);
        if i < n {
            assert(before[i].name_hash == hash);
            assert(valid_entries(before)) by {
                assert forall|a: int, b: int| 0 <= a < b < before.len() implies before[a].name_hash
                    != before[b].name_hash by {
                    assert(entries[a].name_hash != entries[b].name_hash);
                }
            }
            lemma_position_of_hash(before, i);
            assert(entries[i].name_hash != entries[n].name_hash);
        }
    }
    assert(left =~= right);
}

} // verus!
