//! The sector encryption engine: AES-256-XTS with a 512-bit master key.
use crate::engine::bytes::{copy_range, lemma_last_unit, lemma_next_unit, lemma_unit_before, lemma_unit_fits, write_range};
use crate::engine::primitives::fill_random;
use crate::engine::xts::{
    copy_key_half, multiply_tweak as gf_multiply_tweak, sector_tweak, sector_tweak_of,
    xts_decrypt_blocks, xts_decrypt_in_place, xts_decrypt_sector, xts_encrypt_blocks,
    xts_encrypt_in_place, xts_encrypt_sector, gf_mul_x,
};
use crate::engine::{size_mismatch_message, size_mismatch_text, CrossCryptError};
use vstd::prelude::*;

verus! {

/// Size of the master key: two 256-bit AES keys.
pub const MASTER_KEY_SIZE: usize = 64;

/// Default sector size.
pub const SECTOR_SIZE: usize = 4096;

/// Size of an XTS tweak.
pub const TWEAK_SIZE: usize = 16;

/// Sector `s` of `data` cut into sectors of `sector_size` bytes.
pub open spec fn sector_of(data: Seq<u8>, sector_size: nat, s: int) -> Seq<u8> {
    data.subrange(s * sector_size, s * sector_size + sector_size)
}

/// Encrypts and decrypts sectors with AES-256-XTS.
pub struct CryptoEngine {
    key: [u8; MASTER_KEY_SIZE],
    sector_size: usize,
}

impl CryptoEngine {
    /// The 512-bit key: the data key, then the tweak key.
    pub closed spec fn key(&self) -> Seq<u8> {
        self.key@
    }

    /// The sector size.
    pub closed spec fn sector_len(&self) -> usize {
        self.sector_size
    }

    /// The sector size.
    pub fn sector_size(&self) -> (n: usize)
        ensures
            n == self.sector_len(),
    {
        self.sector_size
    }

    /// Creates an engine from a 64-byte key; any other key length is refused.
    pub fn new(key: &[u8], sector_size: u32) -> (r: Result<Self, CrossCryptError>)
        ensures
            r is Ok <==> key@.len() == MASTER_KEY_SIZE,
            r matches Ok(engine) ==> engine.key() == key@ && engine.sector_len() == sector_size as usize,
            r matches Err(e) ==> e is Crypto,
    {
        if key.len() != MASTER_KEY_SIZE {
            return Err(
                CrossCryptError::Crypto(
                    size_mismatch_message("Invalid key size: ", key.len(), MASTER_KEY_SIZE),
                ),
            );
        }
        let mut key_array = [0u8; MASTER_KEY_SIZE];
        let mut i: usize = 0;
        while i < MASTER_KEY_SIZE
            invariant
                0 <= i <= MASTER_KEY_SIZE,
                key@.len() == MASTER_KEY_SIZE,
                forall|j: int| 0 <= j < i ==> key_array[j] == key@[j],
            decreases MASTER_KEY_SIZE - i,
        {
            key_array[i] = key[i];
            i = i + 1;
        }
        assert(key_array@ =~= key@);
        Ok(CryptoEngine { key: key_array, sector_size: sector_size as usize })
    }

    /// Encrypts one sector in place. Data of another length than the sector size
    /// is refused and left as it was. Decrypting the result with the same engine
    /// and index gives the input back.
    pub fn encrypt_sector(&self, sector_index: u64, data: &mut [u8]) -> (r: Result<(), CrossCryptError>)
        requires
            old(data)@.len() == self.sector_len() ==> self.sector_len() % 16 == 0,
        ensures
            r is Ok <==> old(data)@.len() == self.sector_len(),
            r is Ok ==> final(data)@ == xts_encrypt_sector(self.key(), sector_index, old(data)@),
            r is Ok ==> xts_decrypt_sector(self.key(), sector_index, final(data)@) == old(data)@,
            r matches Err(e) ==> e is Crypto && final(data)@ == old(data)@,
    {
        if data.len() != self.sector_size {
            return Err(
                CrossCryptError::Crypto(
                    size_mismatch_message("Invalid sector size: ", data.len(), self.sector_size),
                ),
            );
        }
        let key1 = copy_key_half(self.key.as_slice(), 0);
        let key2 = copy_key_half(self.key.as_slice(), 32);
        let tweak = self.generate_tweak(sector_index, key2.as_slice());
        self.xts_encrypt(key1.as_slice(), &tweak, data);
        Ok(())
    }

    /// Decrypts one sector in place. Data of another length than the sector size
    /// is refused and left as it was. Encrypting the result with the same engine
    /// and index gives the input back.
    pub fn decrypt_sector(&self, sector_index: u64, data: &mut [u8]) -> (r: Result<(), CrossCryptError>)
        requires
            old(data)@.len() == self.sector_len() ==> self.sector_len() % 16 == 0,
        ensures
            r is Ok <==> old(data)@.len() == self.sector_len(),
            r is Ok ==> final(data)@ == xts_decrypt_sector(self.key(), sector_index, old(data)@),
            r is Ok ==> xts_encrypt_sector(self.key(), sector_index, final(data)@) == old(data)@,
            r matches Err(e) ==> e is Crypto && final(data)@ == old(data)@,
    {
        if data.len() != self.sector_size {
            return Err(
                CrossCryptError::Crypto(
                    size_mismatch_message("Invalid sector size: ", data.len(), self.sector_size),
                ),
            );
        }
        let key1 = copy_key_half(self.key.as_slice(), 0);
        let key2 = copy_key_half(self.key.as_slice(), 32);
        let tweak = self.generate_tweak(sector_index, key2.as_slice());
        self.xts_decrypt(key1.as_slice(), &tweak, data);
        Ok(())
    }

    /// The number of sectors in `len` bytes; a trailing partial sector is
    /// refused with the message that `encrypt_sectors` and `decrypt_sectors`
    /// give for it.
    pub fn whole_sectors(&self, len: usize) -> (r: Result<usize, CrossCryptError>)
        requires
            self.sector_len() > 0,
        ensures
            r is Ok <==> len % self.sector_len() == 0,
            r matches Ok(n) ==> n == len / self.sector_len(),
            r matches Err(e) ==> (e matches CrossCryptError::Crypto(m) && m@ == size_mismatch_text(
                "Invalid sector size: "@,
                (len % self.sector_len()) as usize,
                self.sector_len(),
            )),
    {
        let rest = len % self.sector_size;
        if rest != 0 {
            return Err(
                CrossCryptError::Crypto(
                    size_mismatch_message("Invalid sector size: ", rest, self.sector_size),
                ),
            );
        }
        Ok(len / self.sector_size)
    }

    /// Encrypts every whole sector of `data` in place, sector `i` under index
    /// `start_sector + i`, in order; a trailing partial sector is refused and left as it was.
    pub fn encrypt_sectors(&self, start_sector: u64, data: &mut [u8]) -> (r: Result<(), CrossCryptError>)
        requires
            self.sector_len() > 0,
            old(data)@.len() >= self.sector_len() ==> self.sector_len() % 16 == 0,
            old(data)@.len() == 0 || start_sector + ((old(data)@.len() as int) - 1) / (
            self.sector_len() as int) <= u64::MAX,
        ensures
            r is Ok <==> (old(data)@.len() as int) % (self.sector_len() as int) == 0,
            r matches Err(e) ==> e is Crypto,
            final(data)@.len() == old(data)@.len(),
            forall|s: int|
                0 <= s < (old(data)@.len() as int) / (self.sector_len() as int) ==> #[trigger] sector_of(
                    final(data)@,
                    self.sector_len() as nat,
                    s,
                ) == xts_encrypt_sector(
                    self.key(),
                    (start_sector + s) as u64,
                    sector_of(old(data)@, self.sector_len() as nat, s),
                ),
            forall|s: int|
                0 <= s < (old(data)@.len() as int) / (self.sector_len() as int) ==> xts_decrypt_sector(
                    self.key(),
                    (start_sector + s) as u64,
                    #[trigger] sector_of(final(data)@, self.sector_len() as nat, s),
                ) == sector_of(old(data)@, self.sector_len() as nat, s),
            final(data)@.subrange(
                ((old(data)@.len() as int) / (self.sector_len() as int)) * self.sector_len(),
                old(data)@.len() as int,
            ) == old(data)@.subrange(
                ((old(data)@.len() as int) / (self.sector_len() as int)) * self.sector_len(),
                old(data)@.len() as int,
            ),
    {
        let ghost orig = data@;
        let ghost ss = self.sector_len() as nat;
        let size = self.sector_size;
        let len = data.len();
        let full = len / size;
        let mut s: usize = 0;
        let mut off: usize = 0;
        while s < full
            invariant
                0 <= s <= full,
                size == ss,
                ss == self.sector_len(),
                size > 0,
                len == orig.len(),
                full == len / size,
                off == s * size,
                data@.len() == orig.len(),
                len >= size ==> size % 16 == 0,
                len == 0 || start_sector + (len - 1) / (size as int) <= u64::MAX,
                forall|t: int|
                    0 <= t < s ==> #[trigger] sector_of(data@, ss, t) == xts_encrypt_sector(
                        self.key(),
                        (start_sector + t) as u64,
                        sector_of(orig, ss, t),
                    ),
                forall|t: int|
                    0 <= t < s ==> xts_decrypt_sector(
                        self.key(),
                        (start_sector + t) as u64,
                        #[trigger] sector_of(data@, ss, t),
                    ) == sector_of(orig, ss, t),
                forall|i: int| off <= i < len ==> data@[i] == orig[i],
            decreases full - s,
        {
            proof {
                lemma_unit_fits(s as int, len as int, size as int);
                lemma_last_unit(len as int, size as int);
            }
            let ghost before = data@;
            let mut buf = copy_range(data, off, size);
            assert(buf@ == sector_of(orig, ss, s as int)) by {
                assert(buf@ =~= sector_of(orig, ss, s as int));
            }
            let index = start_sector + s as u64;
            let ghost plain = buf@;
            assert(plain.len() == self.sector_len());
            let r = self.encrypt_sector(index, buf.as_mut_slice());
            assert(r is Ok);
            assert(buf@ == xts_encrypt_sector(self.key(), index, plain));
            assert(xts_decrypt_sector(self.key(), index, buf@) == plain);
            write_range(data, off, buf.as_slice());
            proof {
                assert(sector_of(data@, ss, s as int) =~= buf@);
                assert(index == (start_sector + s) as u64);
                assert(sector_of(data@, ss, s as int) == xts_encrypt_sector(self.key(), (start_sector + s) as u64, sector_of(orig, ss, s as int)));
                assert(xts_decrypt_sector(self.key(), (start_sector + s) as u64, sector_of(data@, ss, s as int)) == sector_of(orig, ss, s as int));
                assert forall|t: int| 0 <= t < s implies #[trigger] sector_of(data@, ss, t)
                    == sector_of(before, ss, t) by {
                    lemma_unit_before(t, s as int, size as int);
                    vstd::arithmetic::mul::lemma_mul_nonnegative(t, size as int);
                    assert(sector_of(data@, ss, t) =~= sector_of(before, ss, t));
                }
                lemma_next_unit(s as int, size as int);
            }
            off = off + size;
            s = s + 1;
        }
        if off < len {
            proof {
                vstd::arithmetic::div_mod::lemma_fundamental_div_mod(len as int, size as int);
                vstd::arithmetic::mul::lemma_mul_is_commutative(size as int, full as int);
                lemma_last_unit(len as int, size as int);
            }
            let mut rest = copy_range(data, off, len - off);
            let r = self.encrypt_sector(start_sector + full as u64, rest.as_mut_slice());
            proof {
                assert(data@.subrange(off as int, len as int) =~= orig.subrange(off as int, len as int));
            }
            r
        } else {
            proof {
                vstd::arithmetic::div_mod::lemma_fundamental_div_mod(len as int, size as int);
                vstd::arithmetic::mul::lemma_mul_is_commutative(size as int, full as int);
            }
            Ok(())
        }
    }

    /// Decrypts every whole sector of `data` in place, sector `i` under index
    /// `start_sector + i`, in order; a trailing partial sector is refused and left as it was.
    pub fn decrypt_sectors(&self, start_sector: u64, data: &mut [u8]) -> (r: Result<(), CrossCryptError>)
        requires
            self.sector_len() > 0,
            old(data)@.len() >= self.sector_len() ==> self.sector_len() % 16 == 0,
            old(data)@.len() == 0 || start_sector + ((old(data)@.len() as int) - 1) / (
            self.sector_len() as int) <= u64::MAX,
        ensures
            r is Ok <==> (old(data)@.len() as int) % (self.sector_len() as int) == 0,
            r matches Err(e) ==> e is Crypto,
            final(data)@.len() == old(data)@.len(),
            forall|s: int|
                0 <= s < (old(data)@.len() as int) / (self.sector_len() as int) ==> #[trigger] sector_of(
                    final(data)@,
                    self.sector_len() as nat,
                    s,
                ) == xts_decrypt_sector(
                    self.key(),
                    (start_sector + s) as u64,
                    sector_of(old(data)@, self.sector_len() as nat, s),
                ),
            forall|s: int|
                0 <= s < (old(data)@.len() as int) / (self.sector_len() as int) ==> xts_encrypt_sector(
                    self.key(),
                    (start_sector + s) as u64,
                    #[trigger] sector_of(final(data)@, self.sector_len() as nat, s),
                ) == sector_of(old(data)@, self.sector_len() as nat, s),
            final(data)@.subrange(
                ((old(data)@.len() as int) / (self.sector_len() as int)) * self.sector_len(),
                old(data)@.len() as int,
            ) == old(data)@.subrange(
                ((old(data)@.len() as int) / (self.sector_len() as int)) * self.sector_len(),
                old(data)@.len() as int,
            ),
    {
        let ghost orig = data@;
        let ghost ss = self.sector_len() as nat;
        let size = self.sector_size;
        let len = data.len();
        let full = len / size;
        let mut s: usize = 0;
        let mut off: usize = 0;
        while s < full
            invariant
                0 <= s <= full,
                size == ss,
                ss == self.sector_len(),
                size > 0,
                len == orig.len(),
                full == len / size,
                off == s * size,
                data@.len() == orig.len(),
                len >= size ==> size % 16 == 0,
                len == 0 || start_sector + (len - 1) / (size as int) <= u64::MAX,
                forall|t: int|
                    0 <= t < s ==> #[trigger] sector_of(data@, ss, t) == xts_decrypt_sector(
                        self.key(),
                        (start_sector + t) as u64,
                        sector_of(orig, ss, t),
                    ),
                forall|t: int|
                    0 <= t < s ==> xts_encrypt_sector(
                        self.key(),
                        (start_sector + t) as u64,
                        #[trigger] sector_of(data@, ss, t),
                    ) == sector_of(orig, ss, t),
                forall|i: int| off <= i < len ==> data@[i] == orig[i],
            decreases full - s,
        {
            proof {
                lemma_unit_fits(s as int, len as int, size as int);
                lemma_last_unit(len as int, size as int);
            }
            let ghost before = data@;
            let mut buf = copy_range(data, off, size);
            assert(buf@ == sector_of(orig, ss, s as int)) by {
                assert(buf@ =~= sector_of(orig, ss, s as int));
            }
            let index = start_sector + s as u64;
            let ghost plain = buf@;
            assert(plain.len() == self.sector_len());
            let r = self.decrypt_sector(index, buf.as_mut_slice());
            assert(r is Ok);
            assert(buf@ == xts_decrypt_sector(self.key(), index, plain));
            assert(xts_encrypt_sector(self.key(), index, buf@) == plain);
            write_range(data, off, buf.as_slice());
            proof {
                assert(sector_of(data@, ss, s as int) =~= buf@);
                assert(index == (start_sector + s) as u64);
                assert(sector_of(data@, ss, s as int) == xts_decrypt_sector(self.key(), (start_sector + s) as u64, sector_of(orig, ss, s as int)));
                assert(xts_encrypt_sector(self.key(), (start_sector + s) as u64, sector_of(data@, ss, s as int)) == sector_of(orig, ss, s as int));
                assert forall|t: int| 0 <= t < s implies #[trigger] sector_of(data@, ss, t)
                    == sector_of(before, ss, t) by {
                    lemma_unit_before(t, s as int, size as int);
                    vstd::arithmetic::mul::lemma_mul_nonnegative(t, size as int);
                    assert(sector_of(data@, ss, t) =~= sector_of(before, ss, t));
                }
                lemma_next_unit(s as int, size as int);
            }
            off = off + size;
            s = s + 1;
        }
        if off < len {
            proof {
                vstd::arithmetic::div_mod::lemma_fundamental_div_mod(len as int, size as int);
                vstd::arithmetic::mul::lemma_mul_is_commutative(size as int, full as int);
                lemma_last_unit(len as int, size as int);
            }
            let mut rest = copy_range(data, off, len - off);
            let r = self.decrypt_sector(start_sector + full as u64, rest.as_mut_slice());
            proof {
                assert(data@.subrange(off as int, len as int) =~= orig.subrange(off as int, len as int));
            }
            r
        } else {
            proof {
                vstd::arithmetic::div_mod::lemma_fundamental_div_mod(len as int, size as int);
                vstd::arithmetic::mul::lemma_mul_is_commutative(size as int, full as int);
            }
            Ok(())
        }
    }

    /// The initial tweak of a sector under the tweak key `key2`.
    fn generate_tweak(&self, sector_index: u64, key2: &[u8]) -> (tweak: [u8; 16])
        requires
            key2@.len() == 32,
        ensures
            tweak@ == sector_tweak(key2@, sector_index),
    {
        sector_tweak_of(key2, sector_index)
    }

    /// XTS encryption of whole blocks in place.
    fn xts_encrypt(&self, key1: &[u8], tweak: &[u8; 16], data: &mut [u8])
        requires
            key1@.len() == 32,
            old(data)@.len() % 16 == 0,
        ensures
            final(data)@ == xts_encrypt_blocks(key1@, tweak@, old(data)@),
            xts_decrypt_blocks(key1@, tweak@, final(data)@) == old(data)@,
    {
        xts_encrypt_in_place(key1, *tweak, data);
    }

    /// XTS decryption of whole blocks in place.
    fn xts_decrypt(&self, key1: &[u8], tweak: &[u8; 16], data: &mut [u8])
        requires
            key1@.len() == 32,
            old(data)@.len() % 16 == 0,
        ensures
            final(data)@ == xts_decrypt_blocks(key1@, tweak@, old(data)@),
            xts_encrypt_blocks(key1@, tweak@, final(data)@) == old(data)@,
    {
        xts_decrypt_in_place(key1, *tweak, data);
    }

    /// Multiplies a tweak by `x` in GF(2^128).
    fn multiply_tweak(&self, tweak: &mut [u8; 16])
        ensures
            final(tweak)@ == gf_mul_x(old(tweak)@),
    {
        gf_multiply_tweak(tweak);
    }
}

/// Generates a random 512-bit master key.
pub fn generate_master_key() -> (key: [u8; MASTER_KEY_SIZE]) {
    let mut key = [0u8; MASTER_KEY_SIZE];
    fill_random(vstd::array::ref_mut_array_unsizing_coercion(&mut key));
    key
}

/// Generates `size` random bytes.
pub fn generate_salt(size: usize) -> (salt: Vec<u8>)
    ensures
        salt@.len() == size,
{
    let mut salt = vec![0u8; size];
    fill_random(salt.as_mut_slice());
    salt
}

} // verus!
