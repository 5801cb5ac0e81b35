use crosscrypt::engine::crypto::CryptoEngine;
use crosscrypt::engine::CrossCryptError;
use crosscrypt::fs::block::BlockManager;
use crosscrypt::fs::cache::{BlockCache, CACHE_TTL_NANOS};

fn manager(offset: u64) -> BlockManager {
    let engine = CryptoEngine::new(&[0x5eu8; 64], 512).unwrap();
    BlockManager::new(engine, offset)
}

#[test]
fn block_positions() {
    let m = manager(17 * 1024 * 1024);
    assert_eq!(m.sector_size(), 512);
    assert_eq!(m.block_offset(0), Some(17 * 1024 * 1024));
    assert_eq!(m.block_offset(3), Some(17 * 1024 * 1024 + 1536));
    assert_eq!(m.block_offset(u64::MAX / 256), None);
    assert_eq!(m.total_blocks(17 * 1024 * 1024 + 5000), 9);
    assert_eq!(m.total_blocks(17 * 1024 * 1024), 0);
}

#[test]
fn written_blocks_read_back() {
    let m = manager(0);
    let plain: Vec<u8> = (0..512u32).map(|i| (i * 3) as u8).collect();
    let mut stored = m.encrypt_block(7, &plain).unwrap();
    assert_ne!(stored, plain);
    m.decrypt_block(7, &mut stored).unwrap();
    assert_eq!(stored, plain);
}

#[test]
fn block_of_wrong_size_is_refused() {
    let m = manager(0);
    match m.encrypt_block(0, &[1u8; 100]) {
        Err(CrossCryptError::Crypto(msg)) => assert_eq!(msg, "Block size mismatch: 100 != 512"),
        _ => panic!("a short block must be refused"),
    }
    let mut short = vec![2u8; 100];
    assert!(m.decrypt_block(0, &mut short).is_err());
    assert_eq!(short, vec![2u8; 100]);
}

#[test]
fn runs_of_blocks() {
    let m = manager(0);
    let plain: Vec<u8> = (0..(512 * 3 + 40) as u32).map(|i| (i % 253) as u8).collect();
    let out = m.encrypt_blocks(10, &plain);
    assert_eq!(out.len(), 512 * 3);
    for b in 0..3usize {
        let one = m.encrypt_block(10 + b as u64, &plain[b * 512..(b + 1) * 512]).unwrap();
        assert_eq!(&out[b * 512..(b + 1) * 512], &one[..]);
    }
    let mut back = out.clone();
    m.decrypt_blocks(10, &mut back).unwrap();
    assert_eq!(&back[..], &plain[..512 * 3]);
    assert!(m.encrypt_blocks(0, &plain[..100]).is_empty());
}

#[test]
fn cache_reads_what_was_written() {
    let mut cache = BlockCache::new(4);
    assert_eq!(cache.len(), 0);
    assert_eq!(cache.read(1, 500), None);
    assert_eq!(cache.write(1, vec![1, 2, 3], 10), None);
    assert_eq!(cache.read(1, 500), Some(vec![1, 2, 3]));
    assert_eq!(cache.dirty_data(1), Some(vec![1, 2, 3]));
    assert_eq!(cache.dirty_blocks(), vec![1]);
    cache.mark_clean(1);
    assert_eq!(cache.dirty_data(1), None);
    assert_eq!(cache.read(1, 500), Some(vec![1, 2, 3]));
    assert!(cache.dirty_blocks().is_empty());
}

#[test]
fn full_cache_evicts_the_oldest_and_hands_back_dirty_data() {
    let mut cache = BlockCache::new(2);
    assert_eq!(cache.write(1, vec![11], 100), None);
    assert_eq!(cache.insert(2, vec![22], false, 50), None);
    // Block 2 is the oldest and clean: evicted without a write-back.
    assert_eq!(cache.write(3, vec![33], 200), None);
    assert_eq!(cache.len(), 2);
    assert_eq!(cache.read(2, 500), None);
    // Block 1 is now the oldest and dirty: its data comes back to be written.
    assert_eq!(cache.insert(4, vec![44], false, 300), Some((1, vec![11])));
    assert_eq!(cache.len(), 2);
    assert_eq!(cache.read(1, 500), None);
    assert_eq!(cache.read(3, 500), Some(vec![33]));
    assert_eq!(cache.read(4, 500), Some(vec![44]));
    // Rewriting a cached block evicts nothing.
    assert_eq!(cache.write(3, vec![34], 400), None);
    assert_eq!(cache.read(3, 500), Some(vec![34]));
    assert_eq!(cache.len(), 2);
}

#[test]
fn reading_a_block_keeps_it_longer() {
    let mut cache = BlockCache::new(2);
    cache.insert(1, vec![1], false, 10);
    cache.insert(2, vec![2], false, 20);
    // Reading block 1 makes it the most recently used: block 2 goes first.
    assert_eq!(cache.read(1, 30), Some(vec![1]));
    assert_eq!(cache.insert(3, vec![3], false, 40), None);
    assert_eq!(cache.read(2, 50), None);
    assert_eq!(cache.read(1, 60), Some(vec![1]));
    assert_eq!(cache.read(3, 70), Some(vec![3]));
    // Now block 3 was read last: block 1 goes first.
    assert_eq!(cache.write(4, vec![4], 80), None);
    assert_eq!(cache.read(1, 90), None);
    assert_eq!(cache.read(3, 100), Some(vec![3]));
}

#[test]
fn cache_of_size_zero_keeps_one_block() {
    let mut cache = BlockCache::new(0);
    assert_eq!(cache.write(1, vec![1], 1), None);
    assert_eq!(cache.len(), 1);
    assert_eq!(cache.write(2, vec![2], 2), Some((1, vec![1])));
    assert_eq!(cache.len(), 1);
    assert_eq!(cache.read(2, 500), Some(vec![2]));
}

#[test]
fn expired_blocks_and_removal() {
    let mut cache = BlockCache::new(8);
    cache.write(1, vec![1], 0);
    cache.insert(2, vec![2], false, CACHE_TTL_NANOS);
    let mut stale = cache.expired_blocks(CACHE_TTL_NANOS + 1);
    stale.sort();
    assert_eq!(stale, vec![1]);
    assert!(cache.expired_blocks(CACHE_TTL_NANOS).is_empty());
    assert!(cache.expired_blocks(0).is_empty());
    let mut both = cache.expired_blocks(3 * CACHE_TTL_NANOS);
    both.sort();
    assert_eq!(both, vec![1, 2]);
    cache.remove(1);
    assert_eq!(cache.read(1, 500), None);
    assert_eq!(cache.len(), 1);
    cache.clear();
    assert_eq!(cache.len(), 0);
}
