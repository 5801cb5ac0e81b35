use crosscrypt::engine::crypto::{generate_master_key, generate_salt, CryptoEngine};
use crosscrypt::engine::xts::{multiply_tweak, XtsCipher};
use crosscrypt::engine::CrossCryptError;

#[test]
fn test_encrypt_decrypt() {
    let key = generate_master_key();
    let engine = CryptoEngine::new(&key, 4096).unwrap();

    let original = vec![0xabu8; 4096];
    let mut encrypted = original.clone();

    engine.encrypt_sector(0, &mut encrypted).unwrap();
    assert_ne!(original, encrypted);

    engine.decrypt_sector(0, &mut encrypted).unwrap();
    assert_eq!(original, encrypted);
}

#[test]
fn test_sector_independence() {
    let key = generate_master_key();
    let engine = CryptoEngine::new(&key, 4096).unwrap();

    let mut data1 = vec![0xabu8; 4096];
    let mut data2 = vec![0xabu8; 4096];

    engine.encrypt_sector(0, &mut data1).unwrap();
    engine.encrypt_sector(1, &mut data2).unwrap();

    assert_ne!(data1, data2);
}

#[test]
fn test_xts_encrypt_decrypt() {
    let key = [0x42u8; 64];
    let cipher = XtsCipher::new(&key);

    let plaintext = vec![0xabu8; 4096];
    let mut ciphertext = plaintext.clone();

    cipher.encrypt_sector(0, &mut ciphertext);
    assert_ne!(plaintext, ciphertext);

    cipher.decrypt_sector(0, &mut ciphertext);
    assert_eq!(plaintext, ciphertext);
}

#[test]
fn test_different_sectors() {
    let key = [0x42u8; 64];
    let cipher = XtsCipher::new(&key);

    let mut data1 = vec![0xabu8; 4096];
    let mut data2 = vec![0xabu8; 4096];

    cipher.encrypt_sector(0, &mut data1);
    cipher.encrypt_sector(1, &mut data2);

    assert_ne!(data1, data2);
}

#[test]
fn test_tweak_multiplication() {
    let mut tweak = [0u8; 16];
    tweak[15] = 0x80;

    multiply_tweak(&mut tweak);

    assert_eq!(tweak[0], 0x87);
    assert_eq!(tweak[15], 0x00);
}

#[test]
fn tweak_doubling_shifts_without_carry() {
    let mut tweak = [0u8; 16];
    tweak[0] = 0x01;
    tweak[7] = 0x40;
    multiply_tweak(&mut tweak);
    let mut expected = [0u8; 16];
    expected[0] = 0x02;
    expected[7] = 0x80;
    assert_eq!(tweak, expected);
}

#[test]
fn tweak_doubling_carries_between_bytes() {
    let mut tweak = [0u8; 16];
    tweak[0] = 0x80;
    tweak[14] = 0xff;
    multiply_tweak(&mut tweak);
    let mut expected = [0u8; 16];
    expected[1] = 0x01;
    expected[14] = 0xfe;
    expected[15] = 0x01;
    assert_eq!(tweak, expected);
}

#[test]
fn tweak_doubling_of_top_and_bottom_bits() {
    let mut tweak = [0u8; 16];
    tweak[0] = 0x81;
    tweak[15] = 0x80;
    multiply_tweak(&mut tweak);
    let mut expected = [0u8; 16];
    expected[0] = 0x02 ^ 0x87;
    expected[1] = 0x01;
    assert_eq!(tweak, expected);
}

#[test]
fn engine_refuses_wrong_key_size() {
    let key = [7u8; 32];
    match CryptoEngine::new(&key, 4096) {
        Err(CrossCryptError::Crypto(msg)) => assert_eq!(msg, "Invalid key size: 32, expected 64"),
        _ => panic!("a 32-byte key must be refused"),
    }
}

#[test]
fn engine_refuses_wrong_sector_length_and_keeps_data() {
    let key = [3u8; 64];
    let engine = CryptoEngine::new(&key, 4096).unwrap();
    let original = vec![0x11u8; 512];
    let mut data = original.clone();
    match engine.encrypt_sector(9, &mut data) {
        Err(CrossCryptError::Crypto(msg)) => {
            assert_eq!(msg, "Invalid sector size: 512, expected 4096")
        }
        _ => panic!("a short sector must be refused"),
    }
    assert_eq!(data, original);
    assert!(engine.decrypt_sector(9, &mut data).is_err());
    assert_eq!(data, original);
}

#[test]
fn engine_and_cipher_encrypt_alike() {
    let mut key = [0u8; 64];
    for (i, b) in key.iter_mut().enumerate() {
        *b = i as u8;
    }
    let engine = CryptoEngine::new(&key, 512).unwrap();
    let cipher = XtsCipher::new(&key);
    let plain: Vec<u8> = (0..512u32).map(|i| (i * 7) as u8).collect();
    let mut a = plain.clone();
    let mut b = plain.clone();
    engine.encrypt_sector(77, &mut a).unwrap();
    cipher.encrypt_sector(77, &mut b);
    assert_eq!(a, b);
    assert_ne!(a, plain);
}

#[test]
fn encryption_is_deterministic_per_sector() {
    let key = [0x5au8; 64];
    let engine = CryptoEngine::new(&key, 4096).unwrap();
    let mut a = vec![1u8; 4096];
    let mut b = vec![1u8; 4096];
    engine.encrypt_sector(12, &mut a).unwrap();
    engine.encrypt_sector(12, &mut b).unwrap();
    assert_eq!(a, b);
}

#[test]
fn sectors_encrypt_as_their_own_index() {
    let key = [0x21u8; 64];
    let engine = CryptoEngine::new(&key, 512).unwrap();
    let plain: Vec<u8> = (0..1536u32).map(|i| (i % 251) as u8).collect();
    let mut all = plain.clone();
    engine.encrypt_sectors(5, &mut all).unwrap();
    for s in 0..3usize {
        let mut one = plain[s * 512..(s + 1) * 512].to_vec();
        engine.encrypt_sector(5 + s as u64, &mut one).unwrap();
        assert_eq!(&all[s * 512..(s + 1) * 512], &one[..]);
    }
    engine.decrypt_sectors(5, &mut all).unwrap();
    assert_eq!(all, plain);
}

#[test]
fn sectors_with_a_partial_tail_are_refused() {
    let key = [0x21u8; 64];
    let engine = CryptoEngine::new(&key, 512).unwrap();
    let plain = vec![9u8; 512 + 100];
    let mut data = plain.clone();
    assert!(engine.encrypt_sectors(0, &mut data).is_err());
    assert_eq!(&data[512..], &plain[512..]);
}

#[test]
fn random_material_has_the_asked_size() {
    let a = generate_salt(32);
    let b = generate_salt(32);
    assert_eq!(a.len(), 32);
    assert_ne!(a, b);
    assert_eq!(generate_salt(0).len(), 0);
    let k1 = generate_master_key();
    let k2 = generate_master_key();
    assert_ne!(k1, k2);
}

#[test]
fn partial_final_block_is_stolen() {
    let mut key = [0u8; 64];
    for (i, b) in key.iter_mut().enumerate() {
        *b = (i * 5 + 1) as u8;
    }
    let cipher = XtsCipher::new(&key);
    let plain: Vec<u8> = (0..36u32).map(|i| (i * 11) as u8).collect();
    let mut whole = plain[..32].to_vec();
    cipher.encrypt_sector(9, &mut whole);
    let mut stolen = plain.clone();
    cipher.encrypt_sector(9, &mut stolen);
    assert_eq!(stolen.len(), 36);
    // Blocks before the last whole one encrypt as usual.
    assert_eq!(&stolen[..16], &whole[..16]);
    // The final partial block is the head of the last whole block's usual
    // encryption; that block's place holds the padded partial block.
    assert_eq!(&stolen[32..], &whole[16..20]);
    assert_ne!(&stolen[16..32], &whole[16..32]);
    cipher.decrypt_sector(9, &mut stolen);
    assert_eq!(stolen, plain);
}

#[test]
fn stealing_round_trips_at_every_length() {
    let cipher = XtsCipher::new(&[0x33u8; 64]);
    for len in [16usize, 17, 31, 32, 33, 47, 100, 4096 + 7] {
        let plain: Vec<u8> = (0..len).map(|i| (i % 241) as u8).collect();
        let mut data = plain.clone();
        cipher.encrypt_sector(4, &mut data);
        assert_eq!(data.len(), len);
        assert_ne!(data, plain);
        cipher.decrypt_sector(4, &mut data);
        assert_eq!(data, plain);
    }
}

#[test]
fn whole_sectors_of_a_buffer() {
    let engine = CryptoEngine::new(&[1u8; 64], 512).unwrap();
    assert_eq!(engine.whole_sectors(1536).unwrap(), 3);
    assert_eq!(engine.whole_sectors(0).unwrap(), 0);
    match engine.whole_sectors(1000) {
        Err(CrossCryptError::Crypto(msg)) => assert_eq!(msg, "Invalid sector size: 488, expected 512"),
        _ => panic!("a partial sector must be refused"),
    }
}
