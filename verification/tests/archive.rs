use pmd_farc::file_table::read_file_table;
use pmd_farc::{hash_name, Farc, FarcError, FarcHeader, FileNameError, ReadHeaderError};

fn le(value: u32) -> [u8; 4] {
    value.to_le_bytes()
}

fn pad16(bytes: &mut Vec<u8>) {
    while bytes.len() % 16 != 0 {
        bytes.push(0);
    }
}

fn utf16z(name: &str) -> Vec<u8> {
    let mut out = Vec::new();
    for unit in name.encode_utf16() {
        out.extend_from_slice(&unit.to_le_bytes());
    }
    out.extend_from_slice(&[0, 0]);
    out
}

/// A SIR0 container: sixteen bytes of header, `blob` at offset 16, the table,
/// the content header and a footer without pointers.
fn sir0(blob: &[u8], table: &[(u32, u32, u32)], count: u32, kind: u32) -> Vec<u8> {
    let mut meta = vec![0u8; 16];
    meta.extend_from_slice(blob);
    pad16(&mut meta);
    let table_offset = meta.len() as u32;
    for (key, offset, length) in table {
        meta.extend_from_slice(&le(*key));
        meta.extend_from_slice(&le(*offset));
        meta.extend_from_slice(&le(*length));
    }
    pad16(&mut meta);
    let header_position = meta.len() as u32;
    meta.extend_from_slice(&le(table_offset));
    meta.extend_from_slice(&le(count));
    meta.extend_from_slice(&le(kind));
    pad16(&mut meta);
    let footer_position = meta.len() as u32;
    meta.extend_from_slice(&[0u8; 16]);
    meta[0..4].copy_from_slice(b"SIR0");
    meta[4..8].copy_from_slice(&le(header_position));
    meta[8..12].copy_from_slice(&le(footer_position));
    meta
}

fn outer(sir0_type: u32, meta: &[u8], all_data_offset: u32, data: &[u8]) -> Vec<u8> {
    let mut out = Vec::new();
    out.extend_from_slice(b"FARC");
    out.extend_from_slice(&[0u8; 0x1C]);
    out.extend_from_slice(&le(sir0_type));
    out.extend_from_slice(&le(0x80));
    out.extend_from_slice(&le(meta.len() as u32));
    out.extend_from_slice(&le(all_data_offset));
    out.extend_from_slice(&le(data.len() as u32));
    out.resize(0x80, 0);
    out.extend_from_slice(meta);
    out.extend_from_slice(data);
    out
}

fn hashed_archive(table: &[(u32, u32, u32)], data: &[u8]) -> Vec<u8> {
    let meta = sir0(&[], table, table.len() as u32, 1);
    let all_data_offset = 0x80 + meta.len() as u32;
    outer(5, &meta, all_data_offset, data)
}

fn named_archive(files: &[(&str, u32, u32)], data: &[u8]) -> Vec<u8> {
    let mut blob = Vec::new();
    let mut table = Vec::new();
    for (name, offset, length) in files {
        table.push((16 + blob.len() as u32, *offset, *length));
        blob.extend_from_slice(&utf16z(name));
    }
    let meta = sir0(&blob, &table, table.len() as u32, 0);
    let all_data_offset = 0x80 + meta.len() as u32;
    outer(4, &meta, all_data_offset, data)
}

#[test]
fn header_fields_are_read_little_endian() {
    let mut data = Vec::new();
    data.extend_from_slice(b"FARC");
    data.extend_from_slice(&[0xEE; 0x1C]);
    data.extend_from_slice(&le(5));
    data.extend_from_slice(&le(0x80));
    data.extend_from_slice(&le(0x0102_0304));
    data.extend_from_slice(&le(0x200));
    data.extend_from_slice(&le(0xFFFF_FFFF));
    assert_eq!(data.len(), 0x34);
    assert_eq!(
        FarcHeader::parse(&data),
        Ok(FarcHeader {
            sir0_type: 5,
            sir0_offset: 0x80,
            sir0_length: 0x0102_0304,
            all_data_offset: 0x200,
            all_data_length: 0xFFFF_FFFF,
        })
    );
    data[0x20] = 4;
    assert_eq!(FarcHeader::parse(&data).unwrap().sir0_type, 4);
}

#[test]
fn header_reports_what_is_wrong_in_reading_order() {
    let good = hashed_archive(&[], &[]);
    assert_eq!(FarcHeader::parse(&[]), Err(ReadHeaderError::UnexpectedEof));
    assert_eq!(FarcHeader::parse(b"FAR"), Err(ReadHeaderError::UnexpectedEof));
    assert_eq!(FarcHeader::parse(b"FARD"), Err(ReadHeaderError::BadMagic));
    assert_eq!(FarcHeader::parse(b"farc"), Err(ReadHeaderError::BadMagic));
    assert_eq!(FarcHeader::parse(b"FARC"), Err(ReadHeaderError::UnexpectedEof));
    assert_eq!(FarcHeader::parse(&good[..0x23]), Err(ReadHeaderError::UnexpectedEof));
    assert_eq!(FarcHeader::parse(&good[..0x24]), Err(ReadHeaderError::UnexpectedEof));
    assert_eq!(FarcHeader::parse(&good[..0x33]), Err(ReadHeaderError::UnexpectedEof));
    assert!(FarcHeader::parse(&good[..0x34]).is_ok());
    let mut wrong_type = good.clone();
    wrong_type[0x20] = 6;
    assert_eq!(FarcHeader::parse(&wrong_type), Err(ReadHeaderError::NoVariantMatch(6)));
    assert_eq!(FarcHeader::parse(&wrong_type[..0x24]), Err(ReadHeaderError::NoVariantMatch(6)));
    wrong_type[0] = b'X';
    assert_eq!(FarcHeader::parse(&wrong_type), Err(ReadHeaderError::BadMagic));
}

#[test]
fn parse_reports_a_header_error() {
    assert!(matches!(
        Farc::new(Vec::new()),
        Err(FarcError::ReadHeaderError(ReadHeaderError::UnexpectedEof))
    ));
    let mut data = hashed_archive(&[], &[]);
    data[0x20] = 3;
    assert!(matches!(
        Farc::new(data.clone()),
        Err(FarcError::ReadHeaderError(ReadHeaderError::NoVariantMatch(3)))
    ));
    data[1] = b'B';
    assert!(matches!(
        Farc::new(data),
        Err(FarcError::ReadHeaderError(ReadHeaderError::BadMagic))
    ));
}

#[test]
fn empty_archive_has_no_files() {
    let farc = Farc::new(hashed_archive(&[], &[])).unwrap();
    assert_eq!(farc.file_count(), 0);
    assert_eq!(farc.file_known_name(), 0);
    assert_eq!(farc.file_unknown_name(), 0);
    assert!(farc.iter().is_empty());
    assert!(farc.iter_all_hash().is_empty());
    assert!(matches!(farc.get_hashed_file(0), Err(FarcError::HashedFileNotFound(0))));
}

#[test]
fn hash_indexed_archive_is_read() {
    let data = b"firstsecond!";
    let farc = Farc::new(hashed_archive(&[(0xAABB_CCDD, 0, 5), (7, 5, 7)], data)).unwrap();
    assert_eq!(farc.file_count(), 2);
    assert_eq!(farc.file_known_name(), 0);
    assert_eq!(farc.file_unknown_name(), 2);
    assert_eq!(farc.iter_all_hash(), vec![0xAABB_CCDD, 7]);
    assert_eq!(farc.iter_hash_unknown_name(), vec![0xAABB_CCDD, 7]);
    assert_eq!(farc.iter(), vec![(0xAABB_CCDD, None), (7, None)]);
    assert!(farc.iter_name().is_empty());
    assert_eq!(farc.get_hashed_file(0xAABB_CCDD).unwrap(), b"first");
    assert_eq!(farc.get_hashed_file(7).unwrap(), b"second!");
    assert!(matches!(farc.get_hashed_file(8), Err(FarcError::HashedFileNotFound(8))));
}

#[test]
fn name_indexed_archive_is_read() {
    let data = b"AAAABBB";
    let farc =
        Farc::new(named_archive(&[("a.txt", 0, 4), ("dir\u{e9}\u{1F600}", 4, 3)], data)).unwrap();
    assert_eq!(farc.file_count(), 2);
    assert_eq!(farc.file_known_name(), 2);
    assert_eq!(farc.file_unknown_name(), 0);
    assert_eq!(farc.iter_name(), vec![String::from("a.txt"), String::from("dir\u{e9}\u{1F600}")]);
    assert!(farc.iter_hash_unknown_name().is_empty());
    assert_eq!(
        farc.iter(),
        vec![
            (0x4438_0C0A, Some(String::from("a.txt"))),
            (hash_name("dir\u{e9}\u{1F600}"), Some(String::from("dir\u{e9}\u{1F600}"))),
        ]
    );
    assert_eq!(farc.get_named_file("a.txt").unwrap(), b"AAAA");
    assert_eq!(farc.get_named_file("dir\u{e9}\u{1F600}").unwrap(), b"BBB");
    assert_eq!(farc.get_hashed_file(0x4438_0C0A).unwrap(), b"AAAA");
    match farc.get_named_file("c.txt") {
        Err(FarcError::NamedFileNotFound(name)) => assert_eq!(name, "c.txt"),
        other => panic!("unexpected result: {:?}", other),
    }
}

#[test]
fn named_file_is_found_by_the_hash_of_its_name() {
    let mut farc = Farc::new(hashed_archive(&[(hash_name("hello.txt"), 0, 2)], b"hi")).unwrap();
    assert_eq!(farc.get_named_file("hello.txt").unwrap(), b"hi");
    assert_eq!(farc.file_known_name(), 0);
    assert!(farc.check_file_name("hello.txt"));
    assert!(!farc.check_file_name("hello.txt"));
    assert_eq!(farc.file_known_name(), 1);
    assert_eq!(farc.file_unknown_name(), 0);
    assert_eq!(farc.iter_all_hash(), vec![0xE692_92C2]);
    assert_eq!(farc.get_named_file("hello.txt").unwrap(), b"hi");
    assert_eq!(farc.get_hashed_file(0xE692_92C2).unwrap(), b"hi");
}

#[test]
fn named_file_is_not_found_under_another_name_with_the_same_hash() {
    let farc = Farc::new(named_archive(&[("file_4176983.bin", 0, 1)], b"x")).unwrap();
    assert_eq!(farc.get_named_file("file_4176983.bin").unwrap(), b"x");
    assert!(matches!(
        farc.get_named_file("file_60000240.bin"),
        Err(FarcError::NamedFileNotFound(_))
    ));
    assert_eq!(farc.get_hashed_file(0xDC26_6D47).unwrap(), b"x");
}

#[test]
fn check_file_name_iter_checks_each_name() {
    let mut farc = Farc::new(hashed_archive(
        &[(hash_name("a.txt"), 0, 1), (hash_name("b.txt"), 1, 1), (5, 2, 1)],
        b"abc",
    ))
    .unwrap();
    let snapshot = farc.iter_hash_unknown_name();
    farc.check_file_name_iter(&[
        String::from("b.txt"),
        String::from("nope"),
        String::from("a.txt"),
        String::from("b.txt"),
    ]);
    assert_eq!(snapshot, vec![0x4438_0C0A, 0xAF0F_B709, 5]);
    assert_eq!(farc.iter_name(), vec![String::from("a.txt"), String::from("b.txt")]);
    assert_eq!(farc.iter_hash_unknown_name(), vec![5]);
    assert_eq!(farc.file_count(), 3);
    assert_eq!(farc.get_named_file("b.txt").unwrap(), b"b");
    farc.check_file_name_iter(&[]);
    assert_eq!(farc.file_known_name(), 2);
}

#[test]
fn two_views_of_one_archive_do_not_disturb_each_other() {
    let farc = Farc::new(hashed_archive(&[(1, 0, 4), (2, 2, 4)], b"abcdef")).unwrap();
    let first = farc.get_hashed_file(1).unwrap();
    let second = farc.get_hashed_file(2).unwrap();
    assert_eq!(first, b"abcd");
    assert_eq!(second, b"cdef");
    let first_again = farc.get_hashed_file(1).unwrap();
    assert_eq!(second, b"cdef");
    assert_eq!(first_again, first);
    assert_eq!(farc.get_hashed_file(2).unwrap(), second);
}

#[test]
fn sub_file_that_ends_after_the_data_cannot_be_opened() {
    let farc = Farc::new(hashed_archive(&[(1, 0, 3), (2, 3, 1), (3, 4, 0), (4, 5, 0)], b"abcd"))
        .unwrap();
    assert_eq!(farc.file_count(), 4);
    assert_eq!(farc.get_hashed_file(1).unwrap(), b"abc");
    assert_eq!(farc.get_hashed_file(2).unwrap(), b"d");
    assert_eq!(farc.get_hashed_file(3).unwrap(), b"");
    assert!(matches!(farc.get_hashed_file(4), Err(FarcError::PartitionCreationError)));
    let longer = Farc::new(hashed_archive(&[(1, 0, 5)], b"abcd")).unwrap();
    assert!(matches!(longer.get_hashed_file(1), Err(FarcError::PartitionCreationError)));
    assert!(matches!(longer.get_named_file("zz"), Err(FarcError::NamedFileNotFound(_))));
}

#[test]
fn container_that_ends_after_the_data_is_refused() {
    let mut data = hashed_archive(&[(1, 0, 1)], b"a");
    let length = data.len() as u32 - 0x80 + 1;
    data[0x28..0x2C].copy_from_slice(&le(length));
    assert!(matches!(Farc::new(data.clone()), Err(FarcError::PartitionCreationError)));
    data[0x24..0x28].copy_from_slice(&le(0xFFFF_FFFF));
    data[0x28..0x2C].copy_from_slice(&le(0xFFFF_FFFF));
    assert!(matches!(Farc::new(data), Err(FarcError::PartitionCreationError)));
}

#[test]
fn container_with_a_wrong_magic_is_refused_by_the_codec() {
    let mut data = hashed_archive(&[(1, 0, 1)], b"a");
    data[0x80] = b'X';
    assert!(matches!(Farc::new(data), Err(FarcError::CreateSir0Error(_))));
    let mut empty = hashed_archive(&[], &[]);
    empty[0x28..0x2C].copy_from_slice(&le(0));
    assert!(matches!(Farc::new(empty), Err(FarcError::CreateSir0Error(_))));
}

#[test]
fn content_header_needs_twelve_bytes() {
    let mut data = hashed_archive(&[(1, 0, 1)], b"a");
    let footer = u32::from_le_bytes([data[0x88], data[0x89], data[0x8A], data[0x8B]]);
    data[0x84..0x88].copy_from_slice(&le(footer - 11));
    assert!(matches!(Farc::new(data.clone()), Err(FarcError::Sir0HeaderNotLongEnought(11))));
    data[0x84..0x88].copy_from_slice(&le(footer));
    assert!(matches!(Farc::new(data), Err(FarcError::Sir0HeaderNotLongEnought(0))));
    assert!(matches!(
        read_file_table(&[0; 11], &[], 0),
        Err(FarcError::Sir0HeaderNotLongEnought(11))
    ));
}

#[test]
fn table_kind_must_be_zero_or_one() {
    let meta = sir0(&[], &[(1, 0, 1)], 1, 2);
    let data = outer(5, &meta, 0x80 + meta.len() as u32, b"a");
    assert!(matches!(Farc::new(data), Err(FarcError::UnsuportedFat5Type(2))));
    let meta = sir0(&[], &[], 0, 0xFFFF_FFFF);
    let data = outer(5, &meta, 0x80 + meta.len() as u32, b"");
    assert!(matches!(Farc::new(data), Err(FarcError::UnsuportedFat5Type(0xFFFF_FFFF))));
}

#[test]
fn table_that_ends_after_the_container_is_an_io_error() {
    let meta = sir0(&[], &[(1, 0, 1)], 200, 1);
    let data = outer(5, &meta, 0x80 + meta.len() as u32, b"a");
    // the records after the first are read from what follows the table: the
    // padding, the content header, the footer
    assert!(matches!(
        Farc::new(data),
        Err(FarcError::FileNameError(FileNameError::HashAlreadyPresent(1)))
    ));
    let mut meta = sir0(&[], &[(1, 0, 1)], 1, 1);
    let table_offset = meta.len() as u32 - 11;
    meta[32..36].copy_from_slice(&le(table_offset));
    let data = outer(5, &meta, 0x80 + meta.len() as u32, b"a");
    assert!(matches!(Farc::new(data), Err(FarcError::IOerror)));
    meta[32..36].copy_from_slice(&le(table_offset - 1));
    let data = outer(5, &meta, 0x80 + meta.len() as u32, b"a");
    assert_eq!(Farc::new(data).unwrap().iter_all_hash(), vec![0]);
    let mut header = Vec::new();
    header.extend_from_slice(&le(0));
    header.extend_from_slice(&le(2));
    header.extend_from_slice(&le(1));
    let mut table = Vec::new();
    table.extend_from_slice(&le(9));
    table.extend_from_slice(&le(0));
    table.extend_from_slice(&le(0));
    assert!(matches!(read_file_table(&header, &table, 0), Err(FarcError::IOerror)));
    table.extend_from_slice(&[0; 11]);
    assert!(matches!(read_file_table(&header, &table, 0), Err(FarcError::IOerror)));
    table.push(0);
    assert_eq!(read_file_table(&header, &table, 0).unwrap().len(), 2);
    let mut far = Vec::new();
    far.extend_from_slice(&le(0xFFFF_FFFF));
    far.extend_from_slice(&le(0xFFFF_FFFF));
    far.extend_from_slice(&le(1));
    assert!(matches!(read_file_table(&far, &table, 0), Err(FarcError::IOerror)));
}

#[test]
fn record_count_beyond_the_table_reads_what_follows_it() {
    let mut header = Vec::new();
    header.extend_from_slice(&le(0));
    header.extend_from_slice(&le(2));
    header.extend_from_slice(&le(1));
    let mut table = Vec::new();
    for value in [9u32, 1, 2, 8, 3, 4] {
        table.extend_from_slice(&le(value));
    }
    let index = read_file_table(&header, &table, 100).unwrap();
    assert_eq!(index.len(), 2);
    assert_eq!(index.get_file_by_hash(9).unwrap().start, 101);
    assert_eq!(index.get_file_by_hash(9).unwrap().length, 2);
    assert_eq!(index.get_file_by_hash(8).unwrap().start, 103);
    assert_eq!(index.get_file_by_hash(8).unwrap().length, 4);
}

#[test]
fn start_of_a_sub_file_must_fit_in_32_bits() {
    let meta = sir0(&[], &[(1, 0, 1), (2, 2, 1)], 2, 1);
    let data = outer(5, &meta, 0xFFFF_FFFE, b"a");
    assert!(matches!(
        Farc::new(data),
        Err(FarcError::DataStartOverflow(0xFFFF_FFFE, 2))
    ));
    let meta = sir0(&[], &[(1, 1, 1)], 1, 1);
    let data = outer(5, &meta, 0xFFFF_FFFE, b"a");
    let farc = Farc::new(data).unwrap();
    assert_eq!(farc.file_count(), 1);
    assert!(matches!(farc.get_hashed_file(1), Err(FarcError::PartitionCreationError)));
}

#[test]
fn name_that_is_not_utf16_is_refused() {
    let blob = [0x00, 0xD8, 0x61, 0x00, 0x00, 0x00];
    let meta = sir0(&blob, &[(16, 0, 1)], 1, 0);
    let data = outer(4, &meta, 0x80 + meta.len() as u32, b"a");
    assert!(matches!(Farc::new(data), Err(FarcError::FromUtf16Error)));
}

#[test]
fn name_that_runs_to_the_end_of_the_container_is_an_io_error() {
    let meta = sir0(&[], &[(0x7FFF_FFFF, 0, 1)], 1, 0);
    let data = outer(4, &meta, 0x80 + meta.len() as u32, b"a");
    assert!(matches!(Farc::new(data), Err(FarcError::IOerror)));
    let mut unterminated = sir0(&[], &[(0, 0, 1)], 1, 0);
    let last = unterminated.len() - 2;
    unterminated[0..4].copy_from_slice(b"SIR0");
    for byte in unterminated.iter_mut().skip(last) {
        *byte = 0x41;
    }
    let mut table = unterminated.clone();
    let table_at = 16;
    table[table_at..table_at + 4].copy_from_slice(&le(last as u32));
    let data = outer(4, &table, 0x80 + table.len() as u32, b"a");
    assert!(matches!(Farc::new(data), Err(FarcError::IOerror)));
}

#[test]
fn conflicts_in_the_table_stop_the_parse() {
    let data = hashed_archive(&[(1, 0, 1), (2, 1, 1), (1, 2, 1)], b"abc");
    assert!(matches!(
        Farc::new(data),
        Err(FarcError::FileNameError(FileNameError::HashAlreadyPresent(1)))
    ));
    let data = named_archive(&[("a", 0, 1), ("a", 1, 1)], b"ab");
    match Farc::new(data) {
        Err(FarcError::FileNameError(e)) => {
            assert_eq!(e, FileNameError::NameAlreadyPresent(String::from("a")))
        }
        other => panic!("unexpected result: {:?}", other.map(|_| ())),
    }
    let data = named_archive(&[("file_4176983.bin", 0, 1), ("file_60000240.bin", 1, 1)], b"ab");
    match Farc::new(data) {
        Err(FarcError::FileNameError(e)) => assert_eq!(
            e,
            FileNameError::HashAlreadyPresentTwo(
                0xDC26_6D47,
                String::from("file_60000240.bin"),
                String::from("file_4176983.bin")
            )
        ),
        other => panic!("unexpected result: {:?}", other.map(|_| ())),
    }
}

#[test]
fn every_prefix_of_an_archive_gives_an_archive_or_an_error() {
    let data = named_archive(&[("a.txt", 0, 4), ("b.txt", 4, 3)], b"AAAABBB");
    for end in 0..data.len() {
        if let Ok(farc) = Farc::new(data[..end].to_vec()) {
            for hash in farc.iter_all_hash() {
                let _ = farc.get_hashed_file(hash);
            }
        }
    }
    assert!(Farc::new(data).is_ok());
}

#[test]
fn every_changed_byte_gives_an_archive_or_an_error() {
    let data = hashed_archive(&[(1, 0, 4), (2, 4, 3)], b"AAAABBB");
    for at in 0..data.len() {
        for value in [0x00u8, 0x01, 0x7F, 0x80, 0xFF] {
            let mut changed = data.clone();
            changed[at] = value;
            if let Ok(farc) = Farc::new(changed) {
                for name in farc.iter_name() {
                    let _ = farc.get_named_file(&name);
                }
                for hash in farc.iter_all_hash() {
                    let _ = farc.get_hashed_file(hash);
                }
            }
        }
    }
}
