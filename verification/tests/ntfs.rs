use crosscrypt::engine::CrossCryptError;
use crosscrypt::fs::encrypt_fs::NtfsEncryptFs;
use crosscrypt::fs::ntfs::{AttributeData, AttributeType, NtfsFilesystem};
use crosscrypt::platform::{find_available_drive, MacFuseFilesystem, WinFspFilesystem};
use std::time::{Duration, SystemTime};

fn boot_block() -> Vec<u8> {
    let mut b = vec![0u8; 512];
    b[3..7].copy_from_slice(b"NTFS");
    b[11..13].copy_from_slice(&512u16.to_le_bytes());
    b[13] = 8;
    b[40..48].copy_from_slice(&80_000u64.to_le_bytes());
    b[48..56].copy_from_slice(&4u64.to_le_bytes());
    b[56..64].copy_from_slice(&2u64.to_le_bytes());
    b[64] = 0xF6; // 2^10 bytes per record
    b[68] = 1;
    b[72..80].copy_from_slice(&0x1234_5678u64.to_le_bytes());
    b
}

fn file_name_value(name: &[u16]) -> Vec<u8> {
    let mut v = vec![0u8; 66 + 2 * name.len()];
    v[0..8].copy_from_slice(&5u64.to_le_bytes());
    v[48..56].copy_from_slice(&1234u64.to_le_bytes());
    v[64] = name.len() as u8;
    v[65] = 1;
    for (i, u) in name.iter().enumerate() {
        v[66 + 2 * i..68 + 2 * i].copy_from_slice(&u.to_le_bytes());
    }
    v
}

fn record_with_name(name: &[u16]) -> Vec<u8> {
    let value = file_name_value(name);
    let mut r = vec![0u8; 1024];
    r[0..4].copy_from_slice(b"FILE");
    r[20..22].copy_from_slice(&56u16.to_le_bytes());
    r[22..24].copy_from_slice(&1u16.to_le_bytes());
    r[24..28].copy_from_slice(&300u32.to_le_bytes());
    r[28..32].copy_from_slice(&1024u32.to_le_bytes());
    r[40..42].copy_from_slice(&3u16.to_le_bytes());
    let a = 56;
    let len = 24 + value.len();
    r[a..a + 4].copy_from_slice(&0x30u32.to_le_bytes());
    r[a + 4..a + 8].copy_from_slice(&(len as u32).to_le_bytes());
    r[a + 8] = 0;
    r[a + 14..a + 16].copy_from_slice(&2u16.to_le_bytes());
    r[a + 16..a + 20].copy_from_slice(&(value.len() as u32).to_le_bytes());
    r[a + 20..a + 22].copy_from_slice(&24u16.to_le_bytes());
    r[a + 24..a + 24 + value.len()].copy_from_slice(&value);
    let end = a + len;
    r[end..end + 4].copy_from_slice(&0xFFFF_FFFFu32.to_le_bytes());
    r
}

#[test]
fn test_ntfs_time_conversion() {
    let ntfs_time = 132000000000000000u64;
    let system_time = NtfsFilesystem::ntfs_time_to_systemtime(ntfs_time);

    assert!(system_time >= SystemTime::UNIX_EPOCH);
}

#[test]
fn ntfs_times_in_unix_seconds() {
    assert_eq!(NtfsFilesystem::ntfs_time_to_unix_secs(132000000000000000), 1_555_526_400);
    assert_eq!(NtfsFilesystem::ntfs_time_to_unix_secs(0), 0);
    assert_eq!(
        NtfsFilesystem::ntfs_time_to_systemtime(132000000000000000),
        SystemTime::UNIX_EPOCH + Duration::from_secs(1_555_526_400)
    );
    assert_eq!(NtfsFilesystem::ntfs_time_to_systemtime(5), SystemTime::UNIX_EPOCH);
}

#[test]
fn boot_sector_and_statistics() {
    let block = boot_block();
    assert!(NtfsFilesystem::boot_sector_well_formed(&block));
    let mut fs = NtfsFilesystem::new(512);
    assert!(fs.statfs().is_err());
    fs.parse_boot_sector(&block).unwrap();
    let st = fs.statfs().unwrap();
    assert_eq!(st.blocks, 10_000);
    assert_eq!(st.bsize, 4096);
    assert_eq!(st.frsize, 4096);
    assert_eq!(st.namelen, 255);
    assert_eq!(st.bfree, 0);
}

#[test]
fn foreign_boot_sector_is_refused() {
    let mut block = boot_block();
    block[3..7].copy_from_slice(b"FAT3");
    let mut fs = NtfsFilesystem::new(512);
    assert!(NtfsFilesystem::boot_sector_well_formed(&block));
    assert!(fs.parse_boot_sector(&block).is_err());
    assert!(!NtfsFilesystem::boot_sector_well_formed(&[0u8; 5]));
}

#[test]
fn record_location_follows_the_boot_sector() {
    let mut fs = NtfsFilesystem::new(512);
    assert!(fs.mft_entry_location(0).is_err());
    fs.parse_boot_sector(&boot_block()).unwrap();
    assert!(fs.mft_location_in_range(5));
    let loc = fs.mft_entry_location(5).unwrap();
    // The MFT starts at cluster 4 (byte 16384); record 5 lies 5120 bytes further.
    assert_eq!(loc.block_number, (16384 + 5120) / 512);
    assert_eq!(loc.block_offset, 0);
    assert_eq!(loc.blocks_needed, 2);
    assert_eq!(loc.record_size, 1024);
}

#[test]
fn records_are_parsed_and_cached() {
    let mut fs = NtfsFilesystem::new(512);
    let name: Vec<u16> = "AB".encode_utf16().collect();
    let record = record_with_name(&name);
    assert!(NtfsFilesystem::mft_record_well_formed(&record));
    assert!(fs.cached_mft_entry(7).is_none());
    let entry = fs.load_mft_entry(7, &record).unwrap();
    assert_eq!(&entry.signature, b"FILE");
    assert_eq!(entry.flags, 1);
    assert_eq!(entry.used_size, 300);
    assert_eq!(entry.next_attribute_id, 3);
    assert_eq!(entry.attributes.len(), 1);
    let attr = &entry.attributes[0];
    assert_eq!(attr.attr_type, AttributeType::FileName);
    assert_eq!(attr.attribute_id, 2);
    match &attr.data {
        AttributeData::Resident { data } => {
            let parsed = NtfsFilesystem::parse_file_name(data).unwrap();
            assert_eq!(parsed.name, "AB");
            assert_eq!(parsed.parent_directory, 5);
            assert_eq!(parsed.data_size, 1234);
            assert_eq!(parsed.namespace, 1);
        }
        _ => panic!("the file name is resident"),
    }
    assert!(fs.cached_mft_entry(7).is_some());
}

fn record_with_runs(run_offset: u16, runs: &[u8]) -> Vec<u8> {
    let mut r = vec![0u8; 1024];
    r[0..4].copy_from_slice(b"FILE");
    r[20..22].copy_from_slice(&56u16.to_le_bytes());
    let a = 56;
    let len = 64 + runs.len() + 8;
    r[a..a + 4].copy_from_slice(&0x80u32.to_le_bytes());
    r[a + 4..a + 8].copy_from_slice(&(len as u32).to_le_bytes());
    r[a + 8] = 1;
    r[a + 16..a + 24].copy_from_slice(&0u64.to_le_bytes());
    r[a + 24..a + 32].copy_from_slice(&11u64.to_le_bytes());
    r[a + 32..a + 34].copy_from_slice(&run_offset.to_le_bytes());
    r[a + 40..a + 48].copy_from_slice(&49152u64.to_le_bytes());
    r[a + 48..a + 56].copy_from_slice(&40000u64.to_le_bytes());
    r[a + 56..a + 64].copy_from_slice(&40000u64.to_le_bytes());
    r[a + 64..a + 64 + runs.len()].copy_from_slice(runs);
    let end = a + len;
    r[end..end + 4].copy_from_slice(&0xFFFF_FFFFu32.to_le_bytes());
    r
}

#[test]
fn data_runs_are_read_from_the_run_list_offset() {
    let mut fs = NtfsFilesystem::new(512);
    let record = record_with_runs(64, &[0x11, 0x08, 0x20, 0x11, 0x04, 0xF0, 0x00]);
    assert!(NtfsFilesystem::mft_record_well_formed(&record));
    let entry = fs.load_mft_entry(3, &record).unwrap();
    assert_eq!(entry.attributes.len(), 1);
    assert_eq!(entry.attributes[0].attr_type, AttributeType::Data);
    match &entry.attributes[0].data {
        AttributeData::NonResident { end_vcn, run_offset, allocated_size, data_size, data_runs, .. } => {
            assert_eq!(*end_vcn, 11);
            assert_eq!(*run_offset, 64);
            assert_eq!(*allocated_size, 49152);
            assert_eq!(*data_size, 40000);
            let runs: Vec<(i64, u64)> = data_runs.iter().map(|r| (r.cluster_offset, r.cluster_count)).collect();
            assert_eq!(runs, vec![(32, 8), (16, 4)]);
        }
        _ => panic!("the data attribute is non-resident"),
    }
}

#[test]
fn run_list_offset_inside_the_header_is_read_in_place() {
    // Offset 8 points at the non-resident flag (1): a run with no count bytes
    // and one delta byte (the name length, 0); the name offset (0) ends the list.
    let mut fs = NtfsFilesystem::new(512);
    let record = record_with_runs(8, &[0x11, 0x08, 0x20, 0x00]);
    let entry = fs.load_mft_entry(3, &record).unwrap();
    match &entry.attributes[0].data {
        AttributeData::NonResident { run_offset, data_runs, .. } => {
            assert_eq!(*run_offset, 8);
            let runs: Vec<(i64, u64)> = data_runs.iter().map(|r| (r.cluster_offset, r.cluster_count)).collect();
            assert_eq!(runs, vec![(0, 0)]);
        }
        _ => panic!("the data attribute is non-resident"),
    }
}

#[test]
fn record_without_signature_is_refused() {
    let mut fs = NtfsFilesystem::new(512);
    let mut record = record_with_name(&[0x41]);
    record[0..4].copy_from_slice(b"BAAD");
    match fs.load_mft_entry(1, &record) {
        Err(CrossCryptError::Crypto(msg)) => {
            assert_eq!(msg, "Invalid MFT entry signature: [66, 65, 65, 68]")
        }
        _ => panic!("a record without the FILE signature must be refused"),
    }
    assert!(fs.cached_mft_entry(1).is_none());
    let mut unknown = record_with_name(&[0x41]);
    unknown[56..60].copy_from_slice(&0x35u32.to_le_bytes());
    assert!(fs.load_mft_entry(2, &unknown).is_err());
}

#[test]
fn file_name_with_lone_surrogate_is_replaced() {
    let parsed = NtfsFilesystem::parse_file_name(&file_name_value(&[0x41, 0xD800])).unwrap();
    assert_eq!(parsed.name, "A\u{FFFD}");
    assert_eq!(parsed.name_length, 2);
}

#[test]
fn file_name_surrogate_pairs_combine() {
    let pair = NtfsFilesystem::parse_file_name(&file_name_value(&[0xD83D, 0xDE00, 0x42])).unwrap();
    assert_eq!(pair.name, "\u{1F600}B");
    let unpaired = NtfsFilesystem::parse_file_name(&file_name_value(&[0xD800, 0x41, 0xDC00])).unwrap();
    assert_eq!(unpaired.name, "\u{FFFD}A\u{FFFD}");
}

#[test]
fn drive_letters() {
    let mut in_use = vec![false; 23];
    assert_eq!(find_available_drive(&in_use), Some(b'D'));
    in_use[0] = true;
    in_use[1] = true;
    assert_eq!(find_available_drive(&in_use), Some(b'F'));
    let all = vec![true; 23];
    assert_eq!(find_available_drive(&all), None);
}

#[test]
fn front_ends_are_made() {
    let _mac = MacFuseFilesystem::new();
    let _win = WinFspFilesystem::new();
    let _ntfs = NtfsEncryptFs::new();
}
