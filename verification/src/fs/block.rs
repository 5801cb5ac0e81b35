//! Block-level encryption of the data area: where each block lies on the
//! device and what is written there. The caller reads and writes the device.
use crate::engine::bytes::copy_range;
use crate::engine::crypto::{sector_of, CryptoEngine};
use crate::engine::xts::{xts_decrypt_sector, xts_encrypt_sector};
use crate::engine::text::{decimal_text, u64_to_text};
use crate::engine::CrossCryptError;
use vstd::prelude::*;

verus! {

/// Where block `block_num` lies on the device: after the data area's start,
/// one sector per block.
pub open spec fn block_position(data_offset: u64, sector_size: usize, block_num: u64) -> int {
    data_offset + block_num * sector_size
}

/// Encrypts and decrypts the blocks of a volume's data area.
pub struct BlockManager {
    crypto: CryptoEngine,
    sector_size: usize,
    data_offset: u64,
}

impl BlockManager {
    /// The sector engine.
    pub closed spec fn engine(&self) -> CryptoEngine {
        self.crypto
    }

    /// Where the data area starts on the device.
    pub closed spec fn data_start(&self) -> u64 {
        self.data_offset
    }

    /// The block size.
    pub closed spec fn block_len(&self) -> usize {
        self.sector_size
    }

    /// The manager's invariant: its block size is its engine's sector size, a
    /// whole number of cipher blocks.
    pub closed spec fn wf(&self) -> bool {
        &&& self.sector_size == self.engine().sector_len()
        &&& self.sector_size > 0
        &&& self.sector_size % 16 == 0
    }

    /// The block size.
    pub fn sector_size(&self) -> (n: usize)
        ensures
            n == self.block_len(),
    {
        self.sector_size
    }

    /// A manager over an engine, for a data area starting at `data_offset`; the
    /// block size is the engine's sector size.
    pub fn new(crypto: CryptoEngine, data_offset: u64) -> (m: Self)
        ensures
            m.engine() == crypto,
            m.data_start() == data_offset,
            m.block_len() == crypto.sector_len(),
            m.wf() <==> crypto.sector_len() > 0 && crypto.sector_len() % 16 == 0,
    {
        let sector_size = crypto.sector_size();
        BlockManager { crypto, sector_size, data_offset }
    }

    /// Where block `block_num` lies on the device, or `None` when that position
    /// does not fit in a `u64`.
    pub fn block_offset(&self, block_num: u64) -> (r: Option<u64>)
        ensures
            match r {
                Some(off) => off == block_position(self.data_start(), self.block_len(), block_num),
                None => block_position(self.data_start(), self.block_len(), block_num) > u64::MAX,
            },
    {
        let size = self.sector_size as u64;
        match block_num.checked_mul(size) {
            Some(rel) => self.data_offset.checked_add(rel),
            None => {
                proof {
                    vstd::arithmetic::mul::lemma_mul_inequality(1, size as int, block_num as int);
                }
                None
            },
        }
    }

    /// Decrypts a block read from the device in place. A buffer of another
    /// length than the block size is refused and left as it was.
    pub fn decrypt_block(&self, block_num: u64, buffer: &mut [u8]) -> (r: Result<(), CrossCryptError>)
        requires
            self.wf(),
        ensures
            r is Ok <==> old(buffer)@.len() == self.block_len(),
            r is Ok ==> final(buffer)@ == xts_decrypt_sector(self.engine().key(), block_num, old(buffer)@),
            r matches Err(e) ==> e is Crypto && final(buffer)@ == old(buffer)@,
    {
        self.crypto.decrypt_sector(block_num, buffer)
    }

    /// Encrypts a block for writing to the device. Data of another length than
    /// the block size is refused with a block-size-mismatch error. Decrypting
    /// the result as block `block_num` gives the data back.
    pub fn encrypt_block(&self, block_num: u64, data: &[u8]) -> (r: Result<Vec<u8>, CrossCryptError>)
        requires
            self.wf(),
        ensures
            r is Ok <==> data@.len() == self.block_len(),
            r matches Ok(c) ==> c@ == xts_encrypt_sector(self.engine().key(), block_num, data@)
                && xts_decrypt_sector(self.engine().key(), block_num, c@) == data@,
            r matches Err(e) ==> (e matches CrossCryptError::Crypto(m) && m@ == "Block size mismatch: "@
                + decimal_text(data@.len() as u64) + " != "@ + decimal_text(self.block_len() as u64)),
    {
        if data.len() != self.sector_size {
            let mut msg = String::from_str("Block size mismatch: ");
            let got = u64_to_text(data.len() as u64);
            msg.append(got.as_str());
            msg.append(" != ");
            let want = u64_to_text(self.sector_size as u64);
            msg.append(want.as_str());
            return Err(CrossCryptError::Crypto(msg));
        }
        let mut encrypted = copy_range(data, 0, data.len());
        assert(encrypted@ =~= data@);
        match self.crypto.encrypt_sector(block_num, encrypted.as_mut_slice()) {
            Ok(()) => Ok(encrypted),
            Err(e) => Err(e),
        }
    }

    /// Decrypts contiguous blocks read from the device in place, block `i` of
    /// the buffer as block `start_block + i`; a trailing partial block is refused.
    pub fn decrypt_blocks(&self, start_block: u64, data: &mut [u8]) -> (r: Result<(), CrossCryptError>)
        requires
            self.wf(),
            old(data)@.len() == 0 || start_block + ((old(data)@.len() as int) - 1) / (
            self.block_len() as int) <= u64::MAX,
        ensures
            r is Ok <==> (old(data)@.len() as int) % (self.block_len() as int) == 0,
            r matches Err(e) ==> e is Crypto,
            final(data)@.len() == old(data)@.len(),
            forall|s: int|
                0 <= s < (old(data)@.len() as int) / (self.block_len() as int) ==> #[trigger] sector_of(
                    final(data)@,
                    self.block_len() as nat,
                    s,
                ) == xts_decrypt_sector(
                    self.engine().key(),
                    (start_block + s) as u64,
                    sector_of(old(data)@, self.block_len() as nat, s),
                ),
    {
        self.crypto.decrypt_sectors(start_block, data)
    }

    /// Encrypts the whole blocks of `data` for writing to the device from
    /// block `start_block` on, block `i` as block `start_block + i`; a trailing
    /// partial block is not written.
    pub fn encrypt_blocks(&self, start_block: u64, data: &[u8]) -> (out: Vec<u8>)
        requires
            self.wf(),
            data@.len() < self.block_len() || start_block + (data@.len() as int) / (
            self.block_len() as int) - 1 <= u64::MAX,
        ensures
            out@.len() == ((data@.len() as int) / (self.block_len() as int)) * self.block_len(),
            forall|s: int|
                0 <= s < (data@.len() as int) / (self.block_len() as int) ==> #[trigger] sector_of(
                    out@,
                    self.block_len() as nat,
                    s,
                ) == xts_encrypt_sector(
                    self.engine().key(),
                    (start_block + s) as u64,
                    sector_of(data@, self.block_len() as nat, s),
                ),
    {
        let size = self.sector_size;
        let count = data.len() / size;
        proof {
            vstd::arithmetic::div_mod::lemma_fundamental_div_mod(data@.len() as int, size as int);
            vstd::arithmetic::mul::lemma_mul_is_commutative(size as int, count as int);
            vstd::arithmetic::div_mod::lemma_mod_pos_bound(data@.len() as int, size as int);
        }
        let total = count * size;
        let mut out = copy_range(data, 0, total);
        let ghost plain = out@;
        proof {
            vstd::arithmetic::div_mod::lemma_mod_multiples_basic(count as int, size as int);
            vstd::arithmetic::div_mod::lemma_div_multiples_vanish(count as int, size as int);
            if count > 0 {
                assert(data@.len() >= size) by {
                    if data@.len() < size {
                        vstd::arithmetic::div_mod::lemma_basic_div(data@.len() as int, size as int);
                    }
                }
                assert((total as int - 1) / (size as int) == count as int - 1) by {
                    let x = (count as int - 1) * (size as int) + (size as int - 1);
                    assert(x == total as int - 1) by (nonlinear_arith)
                        requires
                            total == count * size,
                            x == (count as int - 1) * (size as int) + (size as int - 1),
                    ;
                    vstd::arithmetic::div_mod::lemma_fundamental_div_mod_converse(
                        x,
                        size as int,
                        count as int - 1,
                        size as int - 1,
                    );
                }
            }
        }
        assert(out@.len() == total);
        assert(total > 0 ==> count > 0) by {
            if count == 0 {
                vstd::arithmetic::mul::lemma_mul_basics(size as int);
            }
        }
        assert(count > 0 ==> start_block + count - 1 <= u64::MAX);
        let r = self.crypto.encrypt_sectors(start_block, out.as_mut_slice());
        proof {
            assert forall|s: int| 0 <= s < count implies sector_of(plain, size as nat, s) == sector_of(
                data@,
                size as nat,
                s,
            ) by {
                crate::engine::bytes::lemma_unit_fits(s, total as int, size as int);
                assert(sector_of(plain, size as nat, s) =~= sector_of(data@, size as nat, s));
            }
        }
        out
    }

    /// The number of whole blocks in a device of `device_len` bytes.
    pub fn total_blocks(&self, device_len: u64) -> (n: u64)
        requires
            self.wf(),
            device_len >= self.data_start(),
        ensures
            n == (device_len - self.data_start()) as int / (self.block_len() as int),
    {
        (device_len - self.data_offset) / (self.sector_size as u64)
    }
}

/// Blocks follow one another without gaps or overlaps from the start of the
/// data area: block 0 starts there, and each next block starts one block size
/// after the one before.
pub proof fn lemma_blocks_are_contiguous(data_offset: u64, sector_size: usize, block_num: u64)
    ensures
        block_position(data_offset, sector_size, 0) == data_offset,
        block_position(data_offset, sector_size, (block_num + 1) as u64) == block_position(
            data_offset,
            sector_size,
            block_num,
        ) + sector_size || block_num == u64::MAX,
{
    if block_num < u64::MAX {
        assert((block_num + 1) * sector_size == block_num * sector_size + sector_size) by (nonlinear_arith);
    }
}

} // verus!
