use pmd_farc::{Farc, FarcError, FarcLayout, FarcWriter, FarcWriterError};

fn le(value: u32) -> [u8; 4] {
    value.to_le_bytes()
}

fn field(data: &[u8], at: usize) -> u32 {
    u32::from_le_bytes([data[at], data[at + 1], data[at + 2], data[at + 3]])
}

fn one_file_archive() -> Vec<u8> {
    let mut expected = Vec::new();
    expected.extend_from_slice(b"FARC");
    for value in [0u32, 0, 2, 0, 0, 7] {
        expected.extend_from_slice(&le(value));
    }
    expected.extend_from_slice(&[0xA4, 0x3C, 0xEA, 0x77]);
    for value in [5u32, 0x80, 64, 256, 128] {
        expected.extend_from_slice(&le(value));
    }
    expected.resize(0x80, 0);
    // the meta region: SIR0 header, table, content header, footer
    expected.extend_from_slice(b"SIR0");
    expected.extend_from_slice(&le(32));
    expected.extend_from_slice(&le(48));
    expected.extend_from_slice(&le(0));
    for value in [0x1234_5678u32, 0, 2] {
        expected.extend_from_slice(&le(value));
    }
    expected.extend_from_slice(&le(0));
    for value in [16u32, 1, 1] {
        expected.extend_from_slice(&le(value));
    }
    expected.extend_from_slice(&le(0));
    expected.extend_from_slice(&[4, 4, 24]);
    expected.resize(0x80 + 64, 0);
    expected.resize(256, 0);
    expected.extend_from_slice(b"hi");
    expected.resize(256 + 16, 0);
    expected
}

#[test]
fn one_file_archive_is_written_byte_for_byte() {
    let mut writer = FarcWriter::new();
    writer.add_hashed_file(0x1234_5678, b"hi".to_vec());
    let written = writer.write_hashed().unwrap();
    assert_eq!(written.len(), 272);
    assert_eq!(written, one_file_archive());
}

#[test]
fn one_file_archive_round_trips() {
    let mut writer = FarcWriter::new();
    writer.add_hashed_file(0x1234_5678, b"hi".to_vec());
    let farc = Farc::new(writer.write_hashed().unwrap()).unwrap();
    assert_eq!(farc.file_count(), 1);
    assert_eq!(farc.get_hashed_file(0x1234_5678).unwrap(), b"hi");
    assert!(matches!(farc.get_hashed_file(0x0), Err(FarcError::HashedFileNotFound(0))));
}

#[test]
fn empty_archive_is_written_and_read() {
    let written = FarcWriter::new().write_hashed().unwrap();
    let mut expected = Vec::new();
    expected.extend_from_slice(b"FARC");
    for value in [0u32, 0, 2, 0, 0, 7] {
        expected.extend_from_slice(&le(value));
    }
    expected.extend_from_slice(&[0xA4, 0x3C, 0xEA, 0x77]);
    for value in [5u32, 0x80, 48, 256, 112] {
        expected.extend_from_slice(&le(value));
    }
    expected.resize(0x80, 0);
    expected.extend_from_slice(b"SIR0");
    expected.extend_from_slice(&le(16));
    expected.extend_from_slice(&le(32));
    expected.extend_from_slice(&le(0));
    for value in [16u32, 0, 1, 0] {
        expected.extend_from_slice(&le(value));
    }
    expected.extend_from_slice(&[4, 4, 8]);
    expected.resize(256, 0);
    assert_eq!(written, expected);
    let farc = Farc::new(written).unwrap();
    assert_eq!(farc.file_count(), 0);
}

#[test]
fn sorted_hashes_are_ascending() {
    let mut writer = FarcWriter::new();
    for hash in [5u32, 0xFFFF_FFFF, 0, 77, 6, 0x8000_0000, 1] {
        writer.add_hashed_file(hash, vec![1]);
    }
    assert_eq!(writer.sorted_hashes(), vec![0, 1, 5, 6, 77, 0x8000_0000, 0xFFFF_FFFF]);
    assert!(FarcWriter::new().sorted_hashes().is_empty());
}

#[test]
fn files_are_stored_in_the_order_of_their_hashes() {
    let mut writer = FarcWriter::new();
    writer.add_hashed_file(30, vec![3; 17]);
    writer.add_hashed_file(10, vec![1; 16]);
    writer.add_hashed_file(20, Vec::new());
    writer.add_hashed_file(0xFFFF_FFFF, vec![4; 1]);
    let layout = match writer.layout() {
        Ok(layout) => layout,
        Err(_) => panic!("the layout fits"),
    };
    let mut storage = vec![1u8; 16];
    storage.extend_from_slice(&[3; 17]);
    storage.resize(48, 0);
    storage.push(4);
    storage.resize(64, 0);
    assert_eq!(layout.storage, storage);
    let mut meta = vec![0u8; 16];
    for value in [10u32, 0, 16, 20, 16, 0, 30, 16, 17, 0xFFFF_FFFF, 48, 1] {
        meta.extend_from_slice(&le(value));
    }
    assert_eq!(meta.len(), 64);
    for value in [16u32, 4, 1, 0] {
        meta.extend_from_slice(&le(value));
    }
    assert_eq!(layout.meta, meta);
    assert_eq!(layout.header_position, 64);
    assert_eq!(layout.footer_position, 80);
    assert_eq!(layout.pointers, vec![4, 8, 64]);
}

#[test]
fn adding_a_hash_again_replaces_the_content() {
    let mut writer = FarcWriter::new();
    writer.add_hashed_file(1, b"old".to_vec());
    writer.add_hashed_file(1, b"newer".to_vec());
    assert_eq!(writer.sorted_hashes(), vec![1]);
    let farc = Farc::new(writer.write_hashed().unwrap()).unwrap();
    assert_eq!(farc.file_count(), 1);
    assert_eq!(farc.get_hashed_file(1).unwrap(), b"newer");
}

#[test]
fn finish_puts_header_meta_gap_and_storage_together() {
    let layout = FarcLayout {
        storage: vec![7; 5],
        meta: vec![0xEE; 20],
        pointers: vec![4, 8],
        header_position: 0x0102_0304,
        footer_position: 0x0A0B_0C0D,
    };
    let out = match FarcWriter::finish(layout, vec![1, 2, 3]) {
        Ok(out) => out,
        Err(_) => panic!("the archive fits"),
    };
    assert_eq!(out.len(), 256 + 5);
    assert_eq!(&out[0..4], b"FARC");
    assert_eq!(&out[0x20..0x24], &le(5));
    assert_eq!(&out[0x24..0x28], &le(0x80));
    assert_eq!(&out[0x28..0x2C], &le(32));
    assert_eq!(&out[0x2C..0x30], &le(256));
    assert_eq!(&out[0x30..0x34], &le(117));
    assert!(out[0x34..0x80].iter().all(|b| *b == 0));
    assert_eq!(&out[0x80..0x84], b"SIR0");
    assert_eq!(&out[0x84..0x88], &le(0x0102_0304));
    assert_eq!(&out[0x88..0x8C], &le(0x0A0B_0C0D));
    assert_eq!(&out[0x8C..0x94], &[0xEE; 8]);
    assert_eq!(&out[0x94..0x97], &[1, 2, 3]);
    assert!(out[0x97..256].iter().all(|b| *b == 0));
    assert_eq!(&out[256..], &[7; 5]);
}

#[test]
fn finish_starts_the_storage_at_a_multiple_of_256() {
    let layout = FarcLayout {
        storage: vec![9],
        meta: vec![0; 128],
        pointers: Vec::new(),
        header_position: 0,
        footer_position: 0,
    };
    let out = match FarcWriter::finish(layout, Vec::new()) {
        Ok(out) => out,
        Err(_) => panic!("the archive fits"),
    };
    assert_eq!(&out[0x28..0x2C], &le(128));
    assert_eq!(&out[0x2C..0x30], &le(256));
    assert_eq!(out.len(), 257);
    let layout = FarcLayout {
        storage: vec![9],
        meta: vec![0; 128],
        pointers: Vec::new(),
        header_position: 0,
        footer_position: 0,
    };
    let out = match FarcWriter::finish(layout, vec![5]) {
        Ok(out) => out,
        Err(_) => panic!("the archive fits"),
    };
    assert_eq!(&out[0x28..0x2C], &le(144));
    assert_eq!(&out[0x2C..0x30], &le(512));
    assert_eq!(out.len(), 513);
    assert_eq!(out[512], 9);
}

#[test]
fn finish_writes_the_header_over_a_short_meta_region() {
    let layout = FarcLayout {
        storage: Vec::new(),
        meta: Vec::new(),
        pointers: Vec::new(),
        header_position: 1,
        footer_position: 2,
    };
    let out = match FarcWriter::finish(layout, Vec::new()) {
        Ok(out) => out,
        Err(_) => panic!("the archive fits"),
    };
    assert_eq!(&out[0x28..0x2C], &le(12));
    assert_eq!(&out[0x80..0x84], b"SIR0");
    assert_eq!(&out[0x84..0x88], &le(1));
    assert_eq!(&out[0x88..0x8C], &le(2));
    assert_eq!(out.len(), 256);
}

#[test]
fn archive_round_trips_through_writer_and_parser() {
    let mut writer = FarcWriter::new();
    let files: Vec<(u32, Vec<u8>)> = vec![
        (0xDEAD_BEEF, (0..=255u8).collect()),
        (3, b"three".to_vec()),
        (0, Vec::new()),
        (0x8000_0000, vec![0xAB; 16]),
        (77, vec![0xCD; 33]),
    ];
    for (hash, content) in &files {
        writer.add_hashed_file(*hash, content.clone());
    }
    let farc = Farc::new(writer.write_hashed().unwrap()).unwrap();
    assert_eq!(farc.file_count(), files.len());
    assert_eq!(farc.iter_all_hash(), vec![0, 3, 77, 0x8000_0000, 0xDEAD_BEEF]);
    for (hash, content) in &files {
        assert_eq!(farc.get_hashed_file(*hash).unwrap(), content.as_slice());
    }
    let again = match FarcWriter::new_from_farc(&farc) {
        Ok(writer) => writer,
        Err(_) => panic!("every sub-file can be read"),
    };
    let rewritten = again.write_hashed().unwrap();
    let reparsed = Farc::new(rewritten.clone()).unwrap();
    assert_eq!(reparsed.file_count(), farc.file_count());
    for hash in farc.iter_all_hash() {
        assert_eq!(reparsed.get_hashed_file(hash).unwrap(), farc.get_hashed_file(hash).unwrap());
    }
    assert_eq!(rewritten, writer.write_hashed().unwrap());
}

#[test]
fn writer_from_an_archive_with_names_keeps_only_hashes() {
    let mut writer = FarcWriter::new();
    writer.add_hashed_file(0xE692_92C2, b"hello".to_vec());
    let mut farc = Farc::new(writer.write_hashed().unwrap()).unwrap();
    assert!(farc.check_file_name("hello.txt"));
    let again = match FarcWriter::new_from_farc(&farc) {
        Ok(writer) => writer,
        Err(_) => panic!("every sub-file can be read"),
    };
    let reparsed = Farc::new(again.write_hashed().unwrap()).unwrap();
    assert_eq!(reparsed.file_known_name(), 0);
    assert_eq!(reparsed.get_named_file("hello.txt").unwrap(), b"hello");
}

#[test]
fn writer_from_an_archive_with_an_unreadable_file_fails() {
    let mut writer = FarcWriter::new();
    writer.add_hashed_file(1, b"abc".to_vec());
    writer.add_hashed_file(2, b"def".to_vec());
    let mut data = writer.write_hashed().unwrap();
    data.truncate(256 + 16 + 2);
    let farc = Farc::new(data).unwrap();
    assert_eq!(farc.get_hashed_file(1).unwrap(), b"abc");
    assert!(matches!(farc.get_hashed_file(2), Err(FarcError::PartitionCreationError)));
    assert!(matches!(
        FarcWriter::new_from_farc(&farc),
        Err(FarcWriterError::FarcError(FarcError::PartitionCreationError))
    ));
}

#[test]
fn archive_with_many_files_round_trips() {
    let mut writer = FarcWriter::new();
    for i in 0..3000u32 {
        let hash = i.wrapping_mul(0x9E37_79B1) ^ 0x5555_5555;
        writer.add_hashed_file(hash, hash.to_le_bytes()[..(i % 5) as usize].to_vec());
    }
    let written = writer.write_hashed().unwrap();
    let farc = Farc::new(written).unwrap();
    assert_eq!(farc.file_count(), 3000);
    let hashes = farc.iter_all_hash();
    assert!(hashes.windows(2).all(|pair| pair[0] < pair[1]));
    for i in 0..3000u32 {
        let hash = i.wrapping_mul(0x9E37_79B1) ^ 0x5555_5555;
        assert_eq!(farc.get_hashed_file(hash).unwrap(), &hash.to_le_bytes()[..(i % 5) as usize]);
    }
}

#[test]
fn storage_start_and_file_starts_are_multiples_of_their_alignment() {
    for count in [0u32, 1, 2, 3, 4, 5, 9, 10, 11, 20, 21, 22, 100] {
        let mut writer = FarcWriter::new();
        for i in 0..count {
            writer.add_hashed_file(i, vec![i as u8; (i * 7 % 40) as usize]);
        }
        let written = writer.write_hashed().unwrap();
        let meta_length = field(&written, 0x28);
        let start = field(&written, 0x2C);
        let declared = field(&written, 0x30);
        assert_eq!(meta_length % 16, 0);
        assert_eq!(start % 256, 0);
        assert!(start >= 0x80 + meta_length);
        assert!(start < 0x80 + meta_length + 256);
        assert_eq!(written.len() as u32 - start + 112, declared);
        let farc = Farc::new(written).unwrap();
        assert_eq!(farc.file_count(), count as usize);
        for i in 0..count {
            let content = vec![i as u8; (i * 7 % 40) as usize];
            assert_eq!(farc.get_hashed_file(i).unwrap(), content.as_slice());
        }
    }
}
