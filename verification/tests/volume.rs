use crosscrypt::engine::crypto::CryptoEngine;
use crosscrypt::engine::format::check_volume_status;
use crosscrypt::engine::volume::{
    check_mountable, check_new_password, needs_confirmation, open_master_key, password_long_enough,
    MountAttempts, PasswordProblem,
};
use crosscrypt::engine::{
    CrossCryptError, CrossCryptVolume, CryptoAlgorithm, EncryptionConfig, KdfAlgorithm, VolumeStatus,
};

fn fast_config() -> EncryptionConfig {
    EncryptionConfig {
        algorithm: CryptoAlgorithm::Aes256Xts,
        kdf: KdfAlgorithm::Argon2id { iterations: 1, memory_kb: 64, parallelism: 1 },
        sector_size: 4096,
        label: Some("Test Volume".to_string()),
    }
}

#[test]
fn created_volume_unlocks_with_its_password() {
    let (header, key) = CrossCryptVolume::prepare_create(b"correct_password", &fast_config()).unwrap();
    assert_eq!(key.len(), 64);
    assert_eq!(header.attempt_count, 0);
    let (unlocked, engine) =
        CrossCryptVolume::unlock_at(header.clone(), b"correct_password", 1_700_000_000).unwrap();
    assert_eq!(unlocked.salt, header.salt);
    assert_eq!(engine.sector_size(), 4096);
    let reference = CryptoEngine::new(&key, 4096).unwrap();
    let mut a = vec![0x42u8; 4096];
    let mut b = a.clone();
    engine.encrypt_sector(3, &mut a).unwrap();
    reference.encrypt_sector(3, &mut b).unwrap();
    assert_eq!(a, b);
    assert_eq!(open_master_key(&header, b"correct_password").unwrap(), key);
}

#[test]
fn wrong_password_is_refused() {
    let (header, _) = CrossCryptVolume::prepare_create(b"correct_password", &fast_config()).unwrap();
    match CrossCryptVolume::unlock_at(header.clone(), b"wrong_password", 0) {
        Err(CrossCryptError::InvalidPassword) => {}
        _ => panic!("a wrong password must be refused"),
    }
    match open_master_key(&header, b"wrong_password") {
        Err(CrossCryptError::InvalidPassword) => {}
        _ => panic!("a wrong password must be refused"),
    }
}

#[test]
fn locked_volume_is_refused_until_the_lock_ends() {
    let (mut header, _) = CrossCryptVolume::prepare_create(b"pw-123456", &fast_config()).unwrap();
    header.set_lock_at(1000, 300);
    match CrossCryptVolume::unlock_at(header.clone(), b"pw-123456", 1299) {
        Err(CrossCryptError::VolumeLocked) => {}
        _ => panic!("a locked volume must be refused"),
    }
    assert!(CrossCryptVolume::unlock_at(header.clone(), b"pw-123456", 1300).is_ok());
    header.locked_until = Some(u64::MAX);
    match CrossCryptVolume::unlock(header, b"pw-123456") {
        Err(CrossCryptError::VolumeLocked) => {}
        _ => panic!("a volume locked for ever must be refused"),
    }
}

#[test]
fn unlock_by_the_clock() {
    let (header, _) = CrossCryptVolume::prepare_create(b"pw-123456", &fast_config()).unwrap();
    assert!(CrossCryptVolume::unlock(header.clone(), b"pw-123456").is_ok());
    assert!(CrossCryptVolume::unlock(header, b"pw-654321").is_err());
}

#[test]
fn refused_key_derivation_is_a_crypto_error() {
    let mut config = fast_config();
    config.kdf = KdfAlgorithm::Argon2id { iterations: 0, memory_kb: 64, parallelism: 1 };
    match CrossCryptVolume::prepare_create(b"pw", &config) {
        Err(CrossCryptError::Crypto(_)) => {}
        _ => panic!("zero passes must be refused"),
    }
}

#[test]
fn volume_state_and_lock() {
    let mut volume = CrossCryptVolume::new("/dev/null-test".to_string());
    assert_eq!(volume.device(), "/dev/null-test");
    assert!(volume.header().is_none());
    assert!(volume.crypto().is_none());
    assert!(!volume.lock());
    assert!(volume.header().is_none());
    let (header, _) = CrossCryptVolume::prepare_create(b"pw-123456", &fast_config()).unwrap();
    volume.attach_header(header);
    assert!(volume.lock());
    let locked = volume.header().unwrap();
    assert!(locked.is_locked());
    let (header, engine) = CrossCryptVolume::prepare_create(b"pw-123456", &fast_config())
        .and_then(|(h, _)| CrossCryptVolume::unlock_at(h, b"pw-123456", 0))
        .unwrap();
    volume.attach(header, engine);
    assert!(volume.crypto().is_some());
    assert!(!volume.header().unwrap().is_locked());
}

#[test]
fn lock_at_a_given_time() {
    let mut volume = CrossCryptVolume::new("disk.img".to_string());
    assert!(!volume.lock_at(1000));
    let (header, _) = CrossCryptVolume::prepare_create(b"pw-123456", &fast_config()).unwrap();
    volume.attach_header(header);
    assert!(volume.lock_at(1000));
    assert_eq!(volume.header().unwrap().locked_until, Some(1300));
    assert!(volume.lock_at(u64::MAX));
    assert_eq!(volume.header().unwrap().locked_until, Some(1300));
    let h = volume.header().unwrap().clone();
    match CrossCryptVolume::unlock_at(h.clone(), b"pw-123456", 1200) {
        Err(CrossCryptError::VolumeLocked) => {}
        _ => panic!("the lock lasts five minutes"),
    }
    assert!(CrossCryptVolume::unlock_at(h, b"pw-123456", 1300).is_ok());
}

#[test]
fn lockout_bookkeeping_keeps_the_master_key() {
    let (mut header, key) = CrossCryptVolume::prepare_create(b"pw-123456", &fast_config()).unwrap();
    header.increment_attempt_at(100).unwrap();
    assert_eq!(open_master_key(&header, b"pw-123456").unwrap(), key);
    header.increment_attempt_at(100).unwrap();
    header.increment_attempt_at(100).unwrap();
    assert!(header.is_locked_at(100));
    assert_eq!(open_master_key(&header, b"pw-123456").unwrap(), key);
    header.clear_lock();
    let (_, engine) = CrossCryptVolume::unlock_at(header, b"pw-123456", 100).unwrap();
    let reference = CryptoEngine::new(&key, 4096).unwrap();
    let mut a = vec![7u8; 4096];
    let mut b = a.clone();
    engine.encrypt_sector(0, &mut a).unwrap();
    reference.encrypt_sector(0, &mut b).unwrap();
    assert_eq!(a, b);
}

#[test]
fn new_passwords_are_checked() {
    let a = "password123".to_string();
    assert_eq!(check_new_password(&a, &"password124".to_string()), Err(PasswordProblem::Mismatch));
    assert_eq!(check_new_password(&"short".to_string(), &"short".to_string()), Err(PasswordProblem::TooShort));
    assert_eq!(check_new_password(&a, &a.clone()), Ok(()));
    assert_eq!(check_new_password(&"12345678".to_string(), &"12345678".to_string()), Ok(()));
    assert_eq!(PasswordProblem::Mismatch.message(), "Passwords do not match");
    assert_eq!(PasswordProblem::TooShort.message(), "Password must be at least 8 characters");
}

#[test]
fn password_length_counts_bytes() {
    assert!(!password_long_enough("1234567"));
    assert!(password_long_enough("12345678"));
    // Each of these characters takes three bytes of UTF-8.
    assert!(!password_long_enough("密码"));
    assert!(password_long_enough("密码密"));
    let cjk = "密码密".to_string();
    assert_eq!(check_new_password(&cjk, &cjk.clone()), Ok(()));
    let short = "密码".to_string();
    assert_eq!(check_new_password(&short, &short.clone()), Err(PasswordProblem::TooShort));
}

#[test]
fn wrong_passwords_are_counted_on_the_header() {
    let (header, key) = CrossCryptVolume::prepare_create(b"pw-123456", &fast_config()).unwrap();
    let (h1, r1) = CrossCryptVolume::attempt_unlock_at(header, b"wrong", 1000);
    assert!(matches!(r1, Err(CrossCryptError::InvalidPassword)));
    assert_eq!(h1.attempt_count, 1);
    assert_eq!(h1.locked_until, None);
    let (h2, _) = CrossCryptVolume::attempt_unlock_at(h1, b"wrong", 1000);
    let (h3, r3) = CrossCryptVolume::attempt_unlock_at(h2, b"wrong", 1000);
    assert!(matches!(r3, Err(CrossCryptError::InvalidPassword)));
    assert_eq!(h3.attempt_count, 3);
    assert_eq!(h3.locked_until, Some(1300));
    // Locked: even the right password is refused, and nothing is counted.
    let (h4, r4) = CrossCryptVolume::attempt_unlock_at(h3, b"pw-123456", 1200);
    assert!(matches!(r4, Err(CrossCryptError::VolumeLocked)));
    assert_eq!(h4.attempt_count, 3);
    // After the lock the right password works and the header stays as it was.
    let (h5, r5) = CrossCryptVolume::attempt_unlock_at(h4, b"pw-123456", 1300);
    assert_eq!(h5.attempt_count, 3);
    let engine = r5.unwrap();
    let reference = CryptoEngine::new(&key, 4096).unwrap();
    let mut a = vec![1u8; 4096];
    let mut b = a.clone();
    engine.encrypt_sector(2, &mut a).unwrap();
    reference.encrypt_sector(2, &mut b).unwrap();
    assert_eq!(a, b);
}

#[test]
fn tenth_wrong_password_wipes() {
    let (mut header, _) = CrossCryptVolume::prepare_create(b"pw-123456", &fast_config()).unwrap();
    header.attempt_count = 9;
    let (h, r) = CrossCryptVolume::attempt_unlock_at(header, b"wrong", 50);
    match r {
        Err(CrossCryptError::Crypto(msg)) => {
            assert_eq!(msg, "Too many failed attempts. Volume will be wiped.")
        }
        _ => panic!("the tenth wrong password wipes"),
    }
    assert!(h.wipe_triggered);
    assert_eq!(h.attempt_count, 10);
    assert!(h.encrypted_master_key.is_empty());
    // The key slot is cleared: not even the right password opens the volume.
    assert!(open_master_key(&h, b"pw-123456").is_err());
    let (h2, r2) = CrossCryptVolume::attempt_unlock_at(h, b"pw-123456", 60);
    assert!(r2.is_err());
    assert!(h2.wipe_triggered);
    assert_eq!(
        check_volume_status(Ok(h2)).unwrap(),
        VolumeStatus::NotEncrypted
    );
}

#[test]
fn attempt_by_the_clock() {
    let (header, _) = CrossCryptVolume::prepare_create(b"pw-123456", &fast_config()).unwrap();
    let (h, r) = CrossCryptVolume::attempt_unlock(header, b"pw-123456");
    assert!(r.is_ok());
    assert_eq!(h.attempt_count, 0);
    let (h, r) = CrossCryptVolume::attempt_unlock(h, b"nope");
    assert!(r.is_err());
    assert_eq!(h.attempt_count, 1);
}

#[test]
fn only_encrypted_volumes_mount() {
    assert!(check_mountable(VolumeStatus::Encrypted).is_ok());
    assert_eq!(check_mountable(VolumeStatus::NotEncrypted).unwrap_err(), "Device is not a CrossCrypt volume");
    assert_eq!(
        check_mountable(VolumeStatus::EncryptionInProgress).unwrap_err(),
        "Encryption in progress. Use 'resume' to continue."
    );
}

#[test]
fn confirmation_is_asked_only_for_data_kept() {
    assert!(needs_confirmation(false, true, false));
    assert!(!needs_confirmation(true, true, false));
    assert!(!needs_confirmation(false, false, false));
    assert!(!needs_confirmation(false, true, true));
}

#[test]
fn standard_configuration() {
    let c = EncryptionConfig::standard(Some("Data".to_string()));
    assert_eq!(c.algorithm, CryptoAlgorithm::Aes256Xts);
    assert_eq!(c.kdf, KdfAlgorithm::Argon2id { iterations: 3, memory_kb: 65536, parallelism: 4 });
    assert_eq!(c.sector_size, 4096);
    assert_eq!(c.label.as_deref(), Some("Data"));
}

#[test]
fn mount_gives_three_prompts() {
    let mut attempts = MountAttempts::new();
    assert_eq!(attempts.record_failure(), Some(2));
    assert_eq!(attempts.record_failure(), Some(1));
    assert_eq!(attempts.record_failure(), None);
}
