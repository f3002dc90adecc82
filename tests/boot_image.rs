use bmc_persistency::{parse_boot_entries, parse_boot_header_entry, BootHeaderEntry, BootImage, BootParseError};

fn put_u32(b: &mut [u8], at: usize, v: u32) {
    b[at..at + 4].copy_from_slice(&v.to_le_bytes());
}

fn entry(size: u8, data_offset: u32, data_size: u32, delay: u32) -> Vec<u8> {
    let mut e = vec![0u8; 57];
    e[0] = size;
    put_u32(&mut e, 45, data_offset);
    put_u32(&mut e, 49, data_size);
    put_u32(&mut e, 53, delay);
    e
}

/// A boot file with two 0x471 entries and one 0x472 entry, then their data.
fn boot_file(tag: &[u8; 4]) -> Vec<u8> {
    let mut f = vec![0u8; 102];
    f[0..4].copy_from_slice(tag);
    f[25] = 2;
    put_u32(&mut f, 26, 102);
    f[30] = 57;
    f[31] = 1;
    put_u32(&mut f, 32, 216);
    f[36] = 57;
    f.extend(entry(57, 273, 4, 1));
    f.extend(entry(57, 277, 2, 0));
    f.extend(entry(57, 279, 3, 10));
    f.extend([1, 2, 3, 4, 5, 6, 7, 8, 9]);
    f
}

#[test]
fn parses_both_runs_in_order() {
    let f = boot_file(b"BOOT");
    let images = parse_boot_entries(&f).unwrap();
    assert_eq!(
        images,
        vec![
            BootImage { area: 0x471, delay: 1, start: 273, end: 277 },
            BootImage { area: 0x471, delay: 0, start: 277, end: 279 },
            BootImage { area: 0x472, delay: 10, start: 279, end: 282 },
        ]
    );
    assert_eq!(&f[images[2].start..images[2].end], &[7, 8, 9]);
    assert_eq!(parse_boot_entries(&boot_file(b"LDR ")).unwrap().len(), 3);
}

#[test]
fn rejects_bad_boot_files() {
    assert_eq!(parse_boot_entries(&[0u8; 50]), Err(BootParseError::Truncated));
    assert_eq!(parse_boot_entries(&boot_file(b"XXXX")), Err(BootParseError::CorruptHeader));
    let mut f = boot_file(b"BOOT");
    put_u32(&mut f, 216 + 49, 1000);
    assert_eq!(parse_boot_entries(&f), Err(BootParseError::DataOutOfRange));
    let mut f = boot_file(b"BOOT");
    f[31] = 3;
    assert_eq!(parse_boot_entries(&f), Err(BootParseError::EntryOutOfRange));
}

#[test]
fn zero_size_entry_is_skipped_in_place() {
    let mut f = boot_file(b"BOOT");
    f[102] = 0;
    let header = BootHeaderEntry { count: 2, offset: 102, size: 57 };
    assert_eq!(parse_boot_header_entry(0x471, &f, header), Ok(vec![]));
    let header = BootHeaderEntry { count: 1, offset: u32::MAX - 10, size: 57 };
    assert_eq!(parse_boot_header_entry(0x471, &f, header), Err(BootParseError::EntryOutOfRange));
}
