use crosscrypt::engine::kdf::{Argon2idParams, KdfEngine, DEFAULT_KEY_SIZE, DEFAULT_SALT_SIZE};
use crosscrypt::engine::CrossCryptError;
use crosscrypt::engine::text::u64_to_text;

#[test]
fn test_argon2id() {
    let salt = KdfEngine::generate_salt();
    let password = b"test_password";

    let key1 = KdfEngine::argon2id(password, &salt, 1, 8192, 1).unwrap();
    let key2 = KdfEngine::argon2id(password, &salt, 1, 8192, 1).unwrap();

    assert_eq!(key1, key2);
    assert_eq!(key1.len(), DEFAULT_KEY_SIZE);
}

#[test]
fn test_different_salts() {
    let salt1 = KdfEngine::generate_salt();
    let salt2 = KdfEngine::generate_salt();
    let password = b"test_password";

    let key1 = KdfEngine::argon2id(password, &salt1, 1, 8192, 1).unwrap();
    let key2 = KdfEngine::argon2id(password, &salt2, 1, 8192, 1).unwrap();

    assert_ne!(key1, key2);
}

#[test]
fn different_passwords_give_different_keys() {
    let salt = [9u8; 16];
    let key1 = KdfEngine::argon2id(b"first password", &salt, 1, 64, 1).unwrap();
    let key2 = KdfEngine::argon2id(b"second password", &salt, 1, 64, 1).unwrap();
    assert_ne!(key1, key2);
    assert_ne!(&key1[..14], &b"first password"[..]);
}

#[test]
fn salt_shorter_than_eight_bytes_is_refused() {
    let salt = [1u8; 7];
    match KdfEngine::argon2id(b"pw", &salt, 1, 64, 1) {
        Err(CrossCryptError::Crypto(msg)) => assert!(msg.starts_with("Argon2id failed: ")),
        _ => panic!("a 7-byte salt must be refused"),
    }
}

#[test]
fn too_little_memory_is_refused() {
    let salt = [1u8; 16];
    match KdfEngine::argon2id(b"pw", &salt, 1, 4, 1) {
        Err(CrossCryptError::Crypto(msg)) => assert!(msg.starts_with("Argon2id params failed: ")),
        _ => panic!("4 KiB of memory must be refused"),
    }
    assert!(KdfEngine::argon2id(b"pw", &salt, 0, 64, 1).is_err());
    assert!(KdfEngine::argon2id(b"pw", &salt, 1, 64, 0).is_err());
    assert!(KdfEngine::argon2id(b"pw", &salt, 1, 64, 9).is_err());
}

#[test]
fn generated_salts_are_random() {
    let a = KdfEngine::generate_salt();
    let b = KdfEngine::generate_salt();
    assert_eq!(a.len(), DEFAULT_SALT_SIZE);
    assert_ne!(a, b);
}

#[test]
fn parameter_sets() {
    let d = Argon2idParams::default();
    assert_eq!((d.iterations, d.memory_kb, d.parallelism), (3, 65536, 4));
    let c = Argon2idParams::conservative();
    assert_eq!((c.iterations, c.memory_kb, c.parallelism), (4, 262144, 4));
    let f = Argon2idParams::fast();
    assert_eq!((f.iterations, f.memory_kb, f.parallelism), (1, 8192, 1));
}

#[test]
fn decimal_text_of_integers() {
    assert_eq!(u64_to_text(0), "0");
    assert_eq!(u64_to_text(7), "7");
    assert_eq!(u64_to_text(10), "10");
    assert_eq!(u64_to_text(17825792), "17825792");
    assert_eq!(u64_to_text(u64::MAX), u64::MAX.to_string());
}
