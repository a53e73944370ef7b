use pmd_farc::{PGDBEntrie, Pgdb, PgdbError};

fn le(value: u32) -> [u8; 4] {
    value.to_le_bytes()
}

fn utf16z(text: &str) -> Vec<u8> {
    let mut out = Vec::new();
    for unit in text.encode_utf16() {
        out.extend_from_slice(&unit.to_le_bytes());
    }
    out.extend_from_slice(&[0, 0]);
    out
}

/// A PGDB file: twelve bytes of header, the strings, the entries, the
/// sub-header. Each entry names three strings by their rank and carries data.
fn pgdb(strings: &[&str], entries: &[([usize; 3], Vec<u8>)], counted: u32) -> Vec<u8> {
    let mut file = vec![0u8; 12];
    let mut positions = Vec::new();
    for text in strings {
        positions.push(file.len() as u32);
        file.extend_from_slice(&utf16z(text));
    }
    let data_offset = file.len() as u32;
    for (names, data) in entries {
        for name in names {
            file.extend_from_slice(&le(positions[*name]));
        }
        file.extend_from_slice(data);
    }
    let end = file.len() as u32;
    let sub_header = file.len() as u32;
    file.extend_from_slice(&le(0));
    file.extend_from_slice(&le(data_offset));
    file.extend_from_slice(&le(counted));
    file[4..8].copy_from_slice(&le(sub_header));
    file[8..12].copy_from_slice(&le(end));
    file
}

fn three_entries() -> Vec<u8> {
    pgdb(
        &["first.bgrs", "", "actor one", "second.bgrs", "other", "\u{e9}\u{1F600}"],
        &[
            ([0, 1, 2], vec![1, 2, 3, 4]),
            ([3, 4, 5], vec![5, 6, 7, 8]),
            ([0, 0, 0], vec![9, 9, 9, 9]),
        ],
        3,
    )
}

#[test]
fn entrie_new_keeps_its_fields() {
    let entry = PGDBEntrie::new(
        String::from("actor"),
        String::from("primary"),
        String::from("secondary"),
        vec![1, 2],
    );
    assert_eq!(entry.actor_name, "actor");
    assert_eq!(entry.primary_bgrs_filename, "primary");
    assert_eq!(entry.secondary_bgrs_filename, "secondary");
    assert_eq!(entry.data, vec![1, 2]);
}

#[test]
fn all_entries_but_the_last_are_read() {
    let parsed = Pgdb::new(&three_entries()).unwrap();
    let entries = parsed.get_entries();
    assert_eq!(entries.len(), 2);
    assert_eq!(entries[0].primary_bgrs_filename, "first.bgrs");
    assert_eq!(entries[0].secondary_bgrs_filename, "");
    assert_eq!(entries[0].actor_name, "actor one");
    assert_eq!(entries[0].data, vec![1, 2, 3, 4]);
    assert_eq!(entries[1].primary_bgrs_filename, "second.bgrs");
    assert_eq!(entries[1].secondary_bgrs_filename, "other");
    assert_eq!(entries[1].actor_name, "\u{e9}\u{1F600}");
    assert_eq!(entries[1].data, vec![5, 6, 7, 8]);
}

#[test]
fn entry_size_is_the_whole_quotient() {
    let mut file = pgdb(
        &["a"],
        &[([0, 0, 0], vec![1, 2, 3]), ([0, 0, 0], vec![4, 5, 6]), ([0, 0, 0], vec![7, 8, 9, 10])],
        3,
    );
    let parsed = Pgdb::new(&file).unwrap();
    assert_eq!(parsed.get_entries().len(), 2);
    assert_eq!(parsed.get_entries()[0].data, vec![1, 2, 3]);
    assert_eq!(parsed.get_entries()[1].data, vec![4, 5, 6]);
    let sub_header = u32::from_le_bytes([file[4], file[5], file[6], file[7]]) as usize;
    file[sub_header + 8..sub_header + 12].copy_from_slice(&le(2));
    let parsed = Pgdb::new(&file).unwrap();
    assert_eq!(parsed.get_entries().len(), 1);
    assert_eq!(parsed.get_entries()[0].data, vec![1, 2, 3, 12, 0, 0, 0, 12, 0, 0, 0]);
}

#[test]
fn one_counted_entry_gives_none() {
    let file = pgdb(&["a"], &[([0, 0, 0], vec![1])], 1);
    assert!(Pgdb::new(&file).unwrap().get_entries().is_empty());
    let short = pgdb(&[], &[], 1);
    assert!(Pgdb::new(&short).unwrap().get_entries().is_empty());
}

#[test]
fn data_that_ends_early_is_an_io_error() {
    assert_eq!(Pgdb::new(&[]).err(), Some(PgdbError::IOError));
    assert_eq!(Pgdb::new(&[0; 11]).err(), Some(PgdbError::IOError));
    let file = three_entries();
    assert_eq!(Pgdb::new(&file[..file.len() - 1]).err(), Some(PgdbError::IOError));
    let mut far = file.clone();
    far[4..8].copy_from_slice(&le(0xFFFF_FFFF));
    assert_eq!(Pgdb::new(&far).err(), Some(PgdbError::IOError));
    let mut pointer = pgdb(&["a"], &[([0, 0, 0], vec![]), ([0, 0, 0], vec![])], 2);
    let data_offset = 12 + 4;
    pointer[data_offset + 8..data_offset + 12].copy_from_slice(&le(0x7FFF_FFFF));
    assert_eq!(Pgdb::new(&pointer).err(), Some(PgdbError::IOError));
}

#[test]
fn entries_past_the_end_are_an_io_error() {
    let mut file = pgdb(&["a"], &[([0, 0, 0], vec![1; 4]), ([0, 0, 0], vec![2; 4])], 2);
    let end = u32::from_le_bytes([file[8], file[9], file[10], file[11]]);
    file[8..12].copy_from_slice(&le(end + 1000));
    assert_eq!(Pgdb::new(&file).err(), Some(PgdbError::IOError));
}

#[test]
fn impossible_layouts_are_refused() {
    let file = three_entries();
    let sub_header = u32::from_le_bytes([file[4], file[5], file[6], file[7]]) as usize;
    let mut none_counted = file.clone();
    none_counted[sub_header + 8..sub_header + 12].copy_from_slice(&le(0));
    assert_eq!(Pgdb::new(&none_counted).err(), Some(PgdbError::BadLayout));
    let mut ends_before_start = file.clone();
    ends_before_start[8..12].copy_from_slice(&le(3));
    assert_eq!(Pgdb::new(&ends_before_start).err(), Some(PgdbError::BadLayout));
    let mut too_many = file.clone();
    too_many[sub_header + 8..sub_header + 12].copy_from_slice(&le(5));
    assert_eq!(Pgdb::new(&too_many).err(), Some(PgdbError::BadLayout));
    let mut wide = file.clone();
    wide[8..12].copy_from_slice(&le(0xFFFF_FFFF));
    wide[sub_header + 8..sub_header + 12].copy_from_slice(&le(2));
    assert_eq!(Pgdb::new(&wide).err(), Some(PgdbError::IOError));
    let mut wraps = file.clone();
    wraps[8..12].copy_from_slice(&le(0xFFFF_FFFF));
    wraps[sub_header + 4..sub_header + 8].copy_from_slice(&le(0xF000_0000));
    wraps[sub_header + 8..sub_header + 12].copy_from_slice(&le(3));
    assert_eq!(Pgdb::new(&wraps).err(), Some(PgdbError::IOError));
}

#[test]
fn string_that_is_not_utf16_is_refused() {
    let mut file = pgdb(&["ab"], &[([0, 0, 0], vec![]), ([0, 0, 0], vec![])], 2);
    file[12..14].copy_from_slice(&[0x00, 0xDC]);
    assert_eq!(Pgdb::new(&file).err(), Some(PgdbError::FromUtf16Error));
}

#[test]
fn every_prefix_of_a_pgdb_file_gives_entries_or_an_error() {
    let file = three_entries();
    for end in 0..file.len() {
        let _ = Pgdb::new(&file[..end]);
    }
    for at in 0..file.len() {
        let mut changed = file.clone();
        changed[at] = 0xFF;
        let _ = Pgdb::new(&changed);
    }
}
