use crosscrypt::engine::format::{
    check_existing_data, check_magic, check_volume_status, frame_header, EncryptionCursor,
    VolumeHeader, VolumeSuperblock, CROSSCRYPT_MAGIC, DATA_START, ENCRYPT_CHUNK_SIZE, HEADER_SIZE,
    LOCK_DURATION_SECS, MAX_ATTEMPT_LOCK_SECS, CHECKPOINT_SECTORS, attempt_lock_secs, text_contains,
};
use crosscrypt::engine::{CrossCryptError, CryptoAlgorithm, EncryptionConfig, KdfAlgorithm, VolumeStatus};

fn config() -> EncryptionConfig {
    EncryptionConfig {
        algorithm: CryptoAlgorithm::Aes256Xts,
        kdf: KdfAlgorithm::Argon2id { iterations: 1, memory_kb: 8192, parallelism: 1 },
        sector_size: 4096,
        label: Some("Test Volume".to_string()),
    }
}

#[test]
fn new_header_is_fresh() {
    let h = VolumeHeader::new(&config());
    assert_eq!(h.magic, *b"CCRYPT01");
    assert_eq!(h.magic, CROSSCRYPT_MAGIC);
    assert_eq!(h.version, 1);
    assert_eq!(h.salt.len(), 32);
    assert_eq!(h.master_key_nonce.len(), 12);
    assert!(h.encrypted_master_key.is_empty());
    assert_eq!(h.attempt_count, 0);
    assert_eq!(h.locked_until, None);
    assert!(!h.wipe_triggered);
    assert_eq!(h.flags, 0);
    assert_eq!(h.reserved, vec![0u8; 256]);
    assert_eq!(h.config.label.as_deref(), Some("Test Volume"));
    assert!(h.creation_time > 1_600_000_000);
    let other = VolumeHeader::new(&config());
    assert_ne!(h.salt, other.salt);
}

#[test]
fn master_key_wraps_and_unwraps() {
    let mut h = VolumeHeader::new(&config());
    let master = [0x3cu8; 64];
    let kek = [0x77u8; 64];
    h.encrypt_master_key(&master, &kek).unwrap();
    assert_eq!(h.encrypted_master_key.len(), 64 + 16);
    assert_ne!(&h.encrypted_master_key[..64], &master[..]);
    assert_eq!(h.decrypt_master_key(&kek).unwrap(), master.to_vec());
    // Only the first 32 bytes of the key-encryption key matter.
    let mut same_half = kek;
    same_half[40] = 0;
    assert_eq!(h.decrypt_master_key(&same_half).unwrap(), master.to_vec());
}

#[test]
fn wrong_key_is_an_invalid_password() {
    let mut h = VolumeHeader::new(&config());
    h.encrypt_master_key(&[1u8; 64], &[2u8; 64]).unwrap();
    match h.decrypt_master_key(&[3u8; 64]) {
        Err(CrossCryptError::InvalidPassword) => {}
        other => panic!("expected an invalid password, got {:?}", other),
    }
}

#[test]
fn lock_window_at_given_times() {
    let mut h = VolumeHeader::new(&config());
    assert!(!h.is_locked_at(1000));
    assert!(h.lock_expired_at(1000));
    h.set_lock_at(1000, 300);
    assert_eq!(h.locked_until, Some(1300));
    assert!(h.is_locked_at(1000));
    assert!(h.is_locked_at(1299));
    assert!(!h.lock_expired_at(1299));
    assert!(!h.is_locked_at(1300));
    assert!(h.lock_expired_at(1300));
    h.clear_lock();
    assert_eq!(h.locked_until, None);
    assert!(!h.is_locked_at(1000));
}

#[test]
fn lock_by_the_clock() {
    let mut h = VolumeHeader::new(&config());
    assert!(!h.is_locked());
    assert!(h.lock_expired());
    assert!(h.set_lock(300));
    assert!(h.is_locked());
    assert!(!h.lock_expired());
    let until = h.locked_until.unwrap();
    assert!(until >= h.creation_time + 300);
    h.locked_until = Some(1);
    assert!(!h.is_locked());
    assert!(h.lock_expired());
    assert!(h.set_lock(0));
    assert!(!h.is_locked());
    h.locked_until = Some(1);
    assert!(!h.set_lock(u64::MAX));
    assert_eq!(h.locked_until, Some(1));
}

#[test]
fn third_failed_attempt_locks_for_five_minutes() {
    let mut h = VolumeHeader::new(&config());
    h.increment_attempt_at(5000).unwrap();
    h.increment_attempt_at(5000).unwrap();
    assert_eq!(h.attempt_count, 2);
    assert_eq!(h.locked_until, None);
    h.increment_attempt_at(5000).unwrap();
    assert_eq!(h.attempt_count, 3);
    assert_eq!(h.locked_until, Some(5000 + LOCK_DURATION_SECS));
    assert!(h.is_locked_at(5000));
    assert!(!h.wipe_triggered);
}

#[test]
fn later_attempts_lock_longer_and_longer() {
    let mut h = VolumeHeader::new(&config());
    for _ in 0..3 {
        h.increment_attempt_at(5000).unwrap();
    }
    assert_eq!(h.locked_until, Some(5300));
    let mut expected = 300;
    for n in 4..10u32 {
        expected *= 2;
        h.increment_attempt_at(7000).unwrap();
        assert_eq!(h.attempt_count, n);
        assert_eq!(h.locked_until, Some(7000 + expected));
        assert_eq!(attempt_lock_secs(n), expected);
    }
    assert_eq!(expected, MAX_ATTEMPT_LOCK_SECS);
    assert_eq!(attempt_lock_secs(3), 300);
    assert_eq!(attempt_lock_secs(1), 300);
}

#[test]
fn a_lock_past_the_clock_range_is_not_set() {
    let mut h = VolumeHeader::new(&config());
    h.attempt_count = 2;
    h.record_attempt_at(u64::MAX - 10).unwrap();
    assert_eq!(h.attempt_count, 3);
    assert_eq!(h.locked_until, None);
    h.record_attempt_at(100).unwrap();
    assert_eq!(h.locked_until, Some(700));
}

#[test]
fn tenth_failed_attempt_triggers_the_wipe() {
    let mut h = VolumeHeader::new(&config());
    for _ in 0..9 {
        h.increment_attempt_at(10).unwrap();
    }
    assert!(!h.wipe_triggered);
    match h.increment_attempt_at(10) {
        Err(CrossCryptError::Crypto(msg)) => {
            assert_eq!(msg, "Too many failed attempts. Volume will be wiped.")
        }
        _ => panic!("the tenth attempt must fail"),
    }
    assert_eq!(h.attempt_count, 10);
    assert!(h.wipe_triggered);
    assert!(h.encrypted_master_key.is_empty());
}

#[test]
fn failed_attempts_by_the_clock() {
    let mut h = VolumeHeader::new(&config());
    h.increment_attempt().unwrap();
    h.increment_attempt().unwrap();
    assert!(!h.is_locked());
    h.increment_attempt().unwrap();
    assert!(h.is_locked());
    h.clear_lock();
    assert_eq!(h.attempt_count, 0);
    assert!(!h.is_locked());
}

#[test]
fn header_area_is_framed() {
    let serialized = vec![5u8, 6, 7];
    let area = frame_header(&CROSSCRYPT_MAGIC, &serialized);
    assert_eq!(area.len(), HEADER_SIZE);
    assert_eq!(&area[..8], b"CCRYPT01");
    assert_eq!(&area[8..11], &[5u8, 6, 7]);
    assert!(area[11..].iter().all(|b| *b == 0));
    let mut magic = [0u8; 8];
    magic.copy_from_slice(&area[..8]);
    assert!(check_magic(&magic).is_ok());
}

#[test]
fn foreign_magic_is_refused() {
    match check_magic(b"NTFS    ") {
        Err(CrossCryptError::Crypto(msg)) => assert_eq!(msg, "Not a CrossCrypt volume"),
        _ => panic!("foreign magic must be refused"),
    }
}

#[test]
fn refused_magic_reads_as_not_encrypted() {
    let refusal = check_magic(b"XXXXXXXX").unwrap_err();
    assert_eq!(check_volume_status(Err(refusal)).unwrap(), VolumeStatus::NotEncrypted);
}

#[test]
fn status_of_header_reads() {
    let h = VolumeHeader::new(&config());
    assert_eq!(check_volume_status(Ok(h.clone())).unwrap(), VolumeStatus::Encrypted);
    let mut wiped = h.clone();
    wiped.wipe_triggered = true;
    assert_eq!(check_volume_status(Ok(wiped)).unwrap(), VolumeStatus::NotEncrypted);
    let not_ours = Err(CrossCryptError::Crypto("Not a CrossCrypt volume".to_string()));
    assert_eq!(check_volume_status(not_ours).unwrap(), VolumeStatus::NotEncrypted);
    let other = Err(CrossCryptError::Crypto("Deserialization failed".to_string()));
    match check_volume_status(other) {
        Err(CrossCryptError::Crypto(msg)) => assert_eq!(msg, "Deserialization failed"),
        _ => panic!("other errors stand"),
    }
    match check_volume_status(Err(CrossCryptError::InvalidPassword)) {
        Err(CrossCryptError::InvalidPassword) => {}
        _ => panic!("other errors stand"),
    }
}

#[test]
fn existing_data_detection() {
    let h = VolumeHeader::new(&config());
    let not_ours: Result<VolumeHeader, CrossCryptError> =
        Err(CrossCryptError::Crypto("Not a CrossCrypt volume".to_string()));
    assert!(!check_existing_data(0, &not_ours));
    assert!(check_existing_data(4096, &not_ours));
    assert!(!check_existing_data(4096, &Ok(h)));
}

#[test]
fn in_place_encryption_walks_the_data_area() {
    let size = DATA_START + 2 * ENCRYPT_CHUNK_SIZE as u64 + 512 * 1024;
    let mut cursor = EncryptionCursor::start(size, 4096).unwrap();
    assert_eq!(cursor.data_size(), 2 * 1024 * 1024 + 512 * 1024);
    let mut chunks = Vec::new();
    while let Some(chunk) = cursor.next_chunk() {
        chunks.push(chunk);
        cursor.advance(chunk);
    }
    assert_eq!(chunks.len(), 3);
    assert_eq!((chunks[0].offset, chunks[0].len, chunks[0].start_sector), (DATA_START, 1 << 20, 0));
    assert_eq!(
        (chunks[1].offset, chunks[1].len, chunks[1].start_sector),
        (DATA_START + (1 << 20), 1 << 20, 256)
    );
    assert_eq!(
        (chunks[2].offset, chunks[2].len, chunks[2].start_sector),
        (DATA_START + (2 << 20), 512 * 1024, 512)
    );
    assert_eq!(cursor.encrypted(), cursor.data_size());
}

#[test]
fn too_small_device_is_refused() {
    match EncryptionCursor::start(DATA_START, 4096) {
        Err(CrossCryptError::Crypto(msg)) => {
            assert_eq!(msg, "File too small: 17825792 bytes, need at least 17825792")
        }
        _ => panic!("a device without a data area must be refused"),
    }
}

#[test]
fn superblock_records_progress() {
    let mut sb = VolumeSuperblock::fresh(10);
    assert_eq!(sb.encryption_checkpoint, 0);
    assert_eq!(sb.total_sectors, 10);
    assert_eq!(sb.reserved, vec![0u8; 256]);
    assert!(!sb.encryption_complete());
    sb.record_checkpoint(4);
    assert_eq!(sb.encryption_checkpoint, 4);
    assert_eq!(sb.total_sectors, 10);
    assert!(!sb.encryption_complete());
    sb.record_checkpoint(10);
    assert!(sb.encryption_complete());
    assert!(VolumeSuperblock::fresh(0).encryption_complete());
}

#[test]
fn small_sectors_checkpoint_every_thousand() {
    // 512-byte sectors: a megabyte would be 2048 sectors, so chunks stop at 1000.
    let size = DATA_START + 3000 * 512;
    let mut cursor = EncryptionCursor::start(size, 512).unwrap();
    let mut checkpoints = vec![cursor.sectors_done()];
    while let Some(chunk) = cursor.next_chunk() {
        assert!(chunk.len <= (CHECKPOINT_SECTORS * 512) as usize);
        cursor.advance(chunk);
        checkpoints.push(cursor.sectors_done());
    }
    assert_eq!(checkpoints, vec![0, 1000, 2000, 3000]);
}

#[test]
fn encryption_resumes_at_the_checkpoint() {
    let size = DATA_START + 3 * ENCRYPT_CHUNK_SIZE as u64;
    let mut cursor = EncryptionCursor::resume(size, 4096, 300).unwrap();
    assert_eq!(cursor.sectors_done(), 300);
    assert_eq!(cursor.encrypted(), 300 * 4096);
    let first = cursor.next_chunk().unwrap();
    assert_eq!((first.offset, first.len, first.start_sector), (DATA_START + 300 * 4096, 1 << 20, 300));
    cursor.advance(first);
    assert_eq!(cursor.sectors_done(), 556);
    let last = cursor.next_chunk().unwrap();
    assert_eq!((last.len, last.start_sector), ((768 - 556) * 4096, 556));
    cursor.advance(last);
    assert_eq!(cursor.sectors_done(), 768);
    assert!(cursor.next_chunk().is_none());
    // The very end is a valid checkpoint; one past it is refused.
    assert!(EncryptionCursor::resume(size, 4096, 768).unwrap().next_chunk().is_none());
    match EncryptionCursor::resume(size, 4096, 769) {
        Err(CrossCryptError::Crypto(msg)) => assert_eq!(msg, "Checkpoint lies past the end of the device"),
        _ => panic!("a checkpoint past the end must be refused"),
    }
    assert!(EncryptionCursor::resume(DATA_START, 4096, 0).is_err());
}

#[test]
fn text_search() {
    assert!(text_contains("Not a CrossCrypt volume", "Not a CrossCrypt"));
    assert!(text_contains("Not a CrossCrypt volume", "volume"));
    assert!(!text_contains("Not a Cross-Crypt volume", "Not a CrossCrypt"));
    assert!(text_contains("abc", ""));
    assert!(!text_contains("ab", "abc"));
    assert!(text_contains("密码x", "码x"));
    assert!(!text_contains("", "a"));
}
