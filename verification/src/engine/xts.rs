//! AES-256-XTS (IEEE P1619) over whole 16-byte blocks.
//!
//! A data unit (sector) is split into 16-byte blocks. Block `j` is encrypted as
//! `E_k1(P_j ^ T_j) ^ T_j`, where `T_0 = E_k2(sector index, little endian)` and
//! `T_{j+1}` is `T_j` multiplied by `x` in GF(2^128).
use crate::engine::bytes::{copy_range, le_value, write_range};
use crate::engine::primitives::{
    aes256_decrypt, aes256_decrypt_block, aes256_encrypt, aes256_encrypt_block,
};
use vstd::prelude::*;

verus! {

/// Byte-wise exclusive or of two sequences, as long as the first.
pub open spec fn xor_bytes(a: Seq<u8>, b: Seq<u8>) -> Seq<u8> {
    Seq::new(a.len(), |i: int| a[i] ^ b[i])
}

/// The top bit of a byte, as 0 or 1.
pub open spec fn top_bit(b: u8) -> u8 {
    b >> 1u8 >> 1u8 >> 1u8 >> 1u8 >> 1u8 >> 1u8 >> 1u8
}

/// Byte `i` of the tweak `t` multiplied by `x` in GF(2^128): the 128-bit
/// little-endian value shifted left by one, with the reduction polynomial
/// `x^128 = x^7 + x^2 + x + 1` (0x87) folded into byte 0 when a bit falls off.
pub open spec fn gf_mul_x_byte(t: Seq<u8>, i: int) -> u8 {
    let carry_in: u8 = if i == 0 {
        0
    } else {
        top_bit(t[i - 1])
    };
    let shifted: u8 = ((t[i] << 1u8) | carry_in) as u8;
    if i == 0 && top_bit(t[15]) != 0 {
        shifted ^ 0x87u8
    } else {
        shifted
    }
}

/// The tweak `t` multiplied by `x` in GF(2^128).
pub open spec fn gf_mul_x(t: Seq<u8>) -> Seq<u8> {
    Seq::new(16, |i: int| gf_mul_x_byte(t, i))
}

/// The tweak of block `j`: the initial tweak multiplied `j` times by `x`.
pub open spec fn tweak_at(t0: Seq<u8>, j: nat) -> Seq<u8>
    decreases j,
{
    if j == 0 {
        t0
    } else {
        gf_mul_x(tweak_at(t0, (j - 1) as nat))
    }
}

/// Block `j` (16 bytes) of `data`.
pub open spec fn block_of(data: Seq<u8>, j: int) -> Seq<u8> {
    data.subrange(16 * j, 16 * j + 16)
}

/// One XTS block encryption: `E_k1(p ^ t) ^ t`.
pub open spec fn xts_encrypt_block(k1: Seq<u8>, t: Seq<u8>, p: Seq<u8>) -> Seq<u8> {
    xor_bytes(aes256_encrypt(k1, xor_bytes(p, t)), t)
}

/// One XTS block decryption: `D_k1(c ^ t) ^ t`.
pub open spec fn xts_decrypt_block(k1: Seq<u8>, t: Seq<u8>, c: Seq<u8>) -> Seq<u8> {
    xor_bytes(aes256_decrypt(k1, xor_bytes(c, t)), t)
}

/// XTS encryption of a whole number of blocks with data key `k1` and initial tweak `t0`.
pub open spec fn xts_encrypt_blocks(k1: Seq<u8>, t0: Seq<u8>, data: Seq<u8>) -> Seq<u8> {
    Seq::new(
        data.len(),
        |i: int| xts_encrypt_block(k1, tweak_at(t0, (i / 16) as nat), block_of(data, i / 16))[i
            % 16],
    )
}

/// XTS decryption of a whole number of blocks with data key `k1` and initial tweak `t0`.
pub open spec fn xts_decrypt_blocks(k1: Seq<u8>, t0: Seq<u8>, data: Seq<u8>) -> Seq<u8> {
    Seq::new(
        data.len(),
        |i: int| xts_decrypt_block(k1, tweak_at(t0, (i / 16) as nat), block_of(data, i / 16))[i
            % 16],
    )
}

/// The 16-byte block the initial tweak is made from: the sector index in
/// little-endian order, then eight zero bytes.
pub open spec fn sector_tweak_input(sector_index: u64) -> Seq<u8> {
    Seq::new(
        16,
        |i: int|
            if i < 8 {
                ((sector_index >> ((8 * i) as u64)) & 0xffu64) as u8
            } else {
                0u8
            },
    )
}

/// The initial tweak of a sector: the tweak input encrypted under the tweak key `k2`.
pub open spec fn sector_tweak(k2: Seq<u8>, sector_index: u64) -> Seq<u8> {
    aes256_encrypt(k2, sector_tweak_input(sector_index))
}

/// AES-256-XTS encryption of a sector under a 64-byte key (data key first, then tweak key).
pub open spec fn xts_encrypt_sector(key: Seq<u8>, sector_index: u64, data: Seq<u8>) -> Seq<u8> {
    xts_encrypt_blocks(key.subrange(0, 32), sector_tweak(key.subrange(32, 64), sector_index), data)
}

/// AES-256-XTS decryption of a sector under a 64-byte key (data key first, then tweak key).
pub open spec fn xts_decrypt_sector(key: Seq<u8>, sector_index: u64, data: Seq<u8>) -> Seq<u8> {
    xts_decrypt_blocks(key.subrange(0, 32), sector_tweak(key.subrange(32, 64), sector_index), data)
}

/// Whether XTS takes data of this length: whole 16-byte blocks, or at least one
/// block followed by a partial one, which ciphertext stealing covers.
pub open spec fn xts_length_ok(len: nat) -> bool {
    len % 16 == 0 || len >= 16
}

/// XTS encryption with ciphertext stealing (IEEE P1619): whole blocks as
/// `xts_encrypt_blocks`; when the data ends in a partial block of `r` bytes,
/// the last whole block `P` is encrypted to `CC`, the partial block is padded
/// with the last `16 - r` bytes of `CC` and encrypted under the next tweak into
/// the place of `P`, and the first `r` bytes of `CC` become the final partial
/// block.
pub open spec fn xts_steal_encrypt(k1: Seq<u8>, t0: Seq<u8>, data: Seq<u8>) -> Seq<u8> {
    let len = data.len() as int;
    let r = len % 16;
    let m = len / 16;
    if r == 0 {
        xts_encrypt_blocks(k1, t0, data)
    } else {
        let cc = xts_encrypt_block(k1, tweak_at(t0, (m - 1) as nat), block_of(data, m - 1));
        let pp = data.subrange(16 * m, len) + cc.subrange(r, 16);
        xts_encrypt_blocks(k1, t0, data.subrange(0, 16 * (m - 1))) + xts_encrypt_block(
            k1,
            tweak_at(t0, m as nat),
            pp,
        ) + cc.subrange(0, r)
    }
}

/// XTS decryption with ciphertext stealing, undoing `xts_steal_encrypt`.
pub open spec fn xts_steal_decrypt(k1: Seq<u8>, t0: Seq<u8>, data: Seq<u8>) -> Seq<u8> {
    let len = data.len() as int;
    let r = len % 16;
    let m = len / 16;
    if r == 0 {
        xts_decrypt_blocks(k1, t0, data)
    } else {
        let pp = xts_decrypt_block(k1, tweak_at(t0, m as nat), block_of(data, m - 1));
        let cc = data.subrange(16 * m, len) + pp.subrange(r, 16);
        xts_decrypt_blocks(k1, t0, data.subrange(0, 16 * (m - 1))) + xts_decrypt_block(
            k1,
            tweak_at(t0, (m - 1) as nat),
            cc,
        ) + pp.subrange(0, r)
    }
}

/// AES-256-XTS encryption of a sector of any length of at least one block,
/// with ciphertext stealing for a final partial block.
pub open spec fn xts_steal_encrypt_sector(key: Seq<u8>, sector_index: u64, data: Seq<u8>) -> Seq<u8> {
    xts_steal_encrypt(key.subrange(0, 32), sector_tweak(key.subrange(32, 64), sector_index), data)
}

/// AES-256-XTS decryption of a sector of any length of at least one block,
/// with ciphertext stealing for a final partial block.
pub open spec fn xts_steal_decrypt_sector(key: Seq<u8>, sector_index: u64, data: Seq<u8>) -> Seq<u8> {
    xts_steal_decrypt(key.subrange(0, 32), sector_tweak(key.subrange(32, 64), sector_index), data)
}

/// On whole blocks, stealing changes nothing.
pub proof fn lemma_steal_whole_blocks(key: Seq<u8>, sector_index: u64, data: Seq<u8>)
    requires
        data.len() % 16 == 0,
    ensures
        xts_steal_encrypt_sector(key, sector_index, data) == xts_encrypt_sector(key, sector_index, data),
        xts_steal_decrypt_sector(key, sector_index, data) == xts_decrypt_sector(key, sector_index, data),
{
}

proof fn lemma_xor_u8_twice(a: u8, b: u8)
    ensures
        (a ^ b) ^ b == a,
{
    assert((a ^ b) ^ b == a) by (bit_vector);
}

/// Exclusive or with the same sequence twice gives the first sequence back.
pub proof fn lemma_xor_bytes_twice(a: Seq<u8>, b: Seq<u8>)
    requires
        a.len() <= b.len(),
    ensures
        xor_bytes(xor_bytes(a, b), b) == a,
{
    assert forall|i: int| 0 <= i < a.len() implies #[trigger] xor_bytes(xor_bytes(a, b), b)[i]
        == a[i] by {
        lemma_xor_u8_twice(a[i], b[i]);
    }
    assert(xor_bytes(xor_bytes(a, b), b) =~= a);
}

/// Multiplies the tweak by `x` in GF(2^128) in place.
pub fn multiply_tweak(tweak: &mut [u8; 16])
    ensures
        final(tweak)@ == gf_mul_x(old(tweak)@),
{
    let ghost t = tweak@;
    let mut carry: u8 = 0;
    let mut i: usize = 0;
    while i < 16
        invariant
            0 <= i <= 16,
            t.len() == 16,
            carry == (if i == 0 {
                0u8
            } else {
                top_bit(t[i - 1])
            }),
            forall|j: int| 0 <= j < i ==> tweak[j] == ((t[j] << 1u8) | (if j == 0 {
                0u8
            } else {
                top_bit(t[j - 1])
            })) as u8,
            forall|j: int| i <= j < 16 ==> tweak[j] == t[j],
        decreases 16 - i,
    {
        let byte = tweak[i];
        let new_carry = byte >> 7u8;
        assert(new_carry == top_bit(byte)) by (bit_vector)
            requires
                new_carry == byte >> 7u8,
        ;
        tweak[i] = (byte << 1u8) | carry;
        carry = new_carry;
        i = i + 1;
    }
    if carry != 0 {
        tweak[0] = tweak[0] ^ 0x87u8;
    }
    assert(tweak@ =~= gf_mul_x(t));
}

/// The initial tweak of a sector: the sector index in little-endian order, padded
/// to a block and encrypted under the tweak key.
pub(crate) fn sector_tweak_of(key2: &[u8], sector_index: u64) -> (tweak: [u8; 16])
    requires
        key2@.len() == 32,
    ensures
        tweak@ == sector_tweak(key2@, sector_index),
{
    let mut input = [0u8; 16];
    let mut i: usize = 0;
    while i < 8
        invariant
            0 <= i <= 8,
            forall|j: int| 0 <= j < i ==> input[j] == ((sector_index >> ((8 * j) as u64)) & 0xffu64) as u8,
            forall|j: int| i <= j < 16 ==> input[j] == 0u8,
        decreases 8 - i,
    {
        input[i] = ((sector_index >> ((8 * i) as u64)) & 0xffu64) as u8;
        i = i + 1;
    }
    assert(input@ =~= sector_tweak_input(sector_index));
    aes256_encrypt_block(key2, input)
}

/// Index arithmetic of the block layout: byte `16 * j + k` lies in block `j` at offset `k`.
proof fn lemma_block_index(j: int, k: int)
    requires
        0 <= j,
        0 <= k < 16,
    ensures
        (16 * j + k) / 16 == j,
        (16 * j + k) % 16 == k,
{
}

/// XTS-encrypts `data` block by block in place with data key `key1`, starting
/// from tweak `tweak0`. Decrypting the result under the same key and tweak gives
/// the input back.
pub(crate) fn xts_encrypt_in_place(key1: &[u8], tweak0: [u8; 16], data: &mut [u8])
    requires
        key1@.len() == 32,
        old(data)@.len() % 16 == 0,
    ensures
        final(data)@ == xts_encrypt_blocks(key1@, tweak0@, old(data)@),
        xts_decrypt_blocks(key1@, tweak0@, final(data)@) == old(data)@,
{
    let ghost k1 = key1@;
    let ghost t0 = tweak0@;
    let ghost orig = data@;
    let n = data.len() / 16;
    let mut tweak = tweak0;
    let mut j: usize = 0;
    while j < n
        invariant
            0 <= j <= n,
            n * 16 == orig.len(),
            orig.len() <= usize::MAX,
            data@.len() == orig.len(),
            k1 == key1@,
            k1.len() == 32,
            tweak@ == tweak_at(t0, j as nat),
            forall|b: int|
                0 <= b < j ==> #[trigger] block_of(data@, b) == xts_encrypt_block(
                    k1,
                    tweak_at(t0, b as nat),
                    block_of(orig, b),
                ),
            forall|b: int|
                0 <= b < j ==> xts_decrypt_block(k1, tweak_at(t0, b as nat), #[trigger] block_of(data@, b))
                    == block_of(orig, b),
            forall|i: int| 16 * j <= i < orig.len() ==> data@[i] == orig[i],
        decreases n - j,
    {
        let base = 16 * j;
        let ghost before = data@;
        let mut input = [0u8; 16];
        let mut k: usize = 0;
        while k < 16
            invariant
                0 <= k <= 16,
                base == 16 * j,
                base + 16 <= data@.len(),
                data@ == before,
                forall|m: int| 0 <= m < k ==> input[m] == (data@[base + m] ^ tweak[m]),
            decreases 16 - k,
        {
            input[k] = data[base + k] ^ tweak[k];
            k = k + 1;
        }
        assert(block_of(orig, j as int) =~= block_of(before, j as int));
        assert(input@ =~= xor_bytes(block_of(orig, j as int), tweak@));
        let out = aes256_encrypt_block(key1, input);
        let mut k: usize = 0;
        while k < 16
            invariant
                0 <= k <= 16,
                base == 16 * j,
                base + 16 <= data@.len(),
                data@.len() == before.len(),
                forall|m: int| 0 <= m < k ==> data@[base + m] == (out[m] ^ tweak[m]),
                forall|i: int| 0 <= i < base ==> data@[i] == before[i],
                forall|i: int| base + k <= i < data@.len() ==> data@[i] == before[i],
            decreases 16 - k,
        {
            data[base + k] = out[k] ^ tweak[k];
            k = k + 1;
        }
        proof {
            let p = block_of(orig, j as int);
            let t = tweak@;
            assert(block_of(data@, j as int) =~= xor_bytes(out@, t));
            assert(xor_bytes(out@, t) == xts_encrypt_block(k1, t, p));
            lemma_xor_bytes_twice(out@, t);
            lemma_xor_bytes_twice(p, t);
            assert(xts_decrypt_block(k1, t, block_of(data@, j as int)) == p);
            assert forall|b: int| 0 <= b < j implies #[trigger] block_of(data@, b) == block_of(
                before,
                b,
            ) by {
                assert(block_of(data@, b) =~= block_of(before, b));
            }
        }
        multiply_tweak(&mut tweak);
        j = j + 1;
    }
    proof {
        let enc = xts_encrypt_blocks(k1, t0, orig);
        assert forall|i: int| 0 <= i < orig.len() implies #[trigger] data@[i] == enc[i] by {
            let b = i / 16;
            let o = i % 16;
            lemma_block_index(b, o);
            assert(0 <= b < n);
            assert(data@[i] == block_of(data@, b)[o]);
        }
        assert(data@ =~= enc);
        let dec = xts_decrypt_blocks(k1, t0, data@);
        assert forall|i: int| 0 <= i < orig.len() implies #[trigger] dec[i] == orig[i] by {
            let b = i / 16;
            let o = i % 16;
            lemma_block_index(b, o);
            assert(orig[i] == block_of(orig, b)[o]);
        }
        assert(dec =~= orig);
    }
}

/// XTS-decrypts `data` block by block in place with data key `key1`, starting
/// from tweak `tweak0`. Encrypting the result under the same key and tweak gives
/// the input back.
pub(crate) fn xts_decrypt_in_place(key1: &[u8], tweak0: [u8; 16], data: &mut [u8])
    requires
        key1@.len() == 32,
        old(data)@.len() % 16 == 0,
    ensures
        final(data)@ == xts_decrypt_blocks(key1@, tweak0@, old(data)@),
        xts_encrypt_blocks(key1@, tweak0@, final(data)@) == old(data)@,
{
    let ghost k1 = key1@;
    let ghost t0 = tweak0@;
    let ghost orig = data@;
    let n = data.len() / 16;
    let mut tweak = tweak0;
    let mut j: usize = 0;
    while j < n
        invariant
            0 <= j <= n,
            n * 16 == orig.len(),
            orig.len() <= usize::MAX,
            data@.len() == orig.len(),
            k1 == key1@,
            k1.len() == 32,
            tweak@ == tweak_at(t0, j as nat),
            forall|b: int|
                0 <= b < j ==> #[trigger] block_of(data@, b) == xts_decrypt_block(
                    k1,
                    tweak_at(t0, b as nat),
                    block_of(orig, b),
                ),
            forall|b: int|
                0 <= b < j ==> xts_encrypt_block(k1, tweak_at(t0, b as nat), #[trigger] block_of(data@, b))
                    == block_of(orig, b),
            forall|i: int| 16 * j <= i < orig.len() ==> data@[i] == orig[i],
        decreases n - j,
    {
        let base = 16 * j;
        let ghost before = data@;
        let mut input = [0u8; 16];
        let mut k: usize = 0;
        while k < 16
            invariant
                0 <= k <= 16,
                base == 16 * j,
                base + 16 <= data@.len(),
                data@ == before,
                forall|m: int| 0 <= m < k ==> input[m] == (data@[base + m] ^ tweak[m]),
            decreases 16 - k,
        {
            input[k] = data[base + k] ^ tweak[k];
            k = k + 1;
        }
        assert(block_of(orig, j as int) =~= block_of(before, j as int));
        assert(input@ =~= xor_bytes(block_of(orig, j as int), tweak@));
        let out = aes256_decrypt_block(key1, input);
        let mut k: usize = 0;
        while k < 16
            invariant
                0 <= k <= 16,
                base == 16 * j,
                base + 16 <= data@.len(),
                data@.len() == before.len(),
                forall|m: int| 0 <= m < k ==> data@[base + m] == (out[m] ^ tweak[m]),
                forall|i: int| 0 <= i < base ==> data@[i] == before[i],
                forall|i: int| base + k <= i < data@.len() ==> data@[i] == before[i],
            decreases 16 - k,
        {
            data[base + k] = out[k] ^ tweak[k];
            k = k + 1;
        }
        proof {
            let p = block_of(orig, j as int);
            let t = tweak@;
            assert(block_of(data@, j as int) =~= xor_bytes(out@, t));
            assert(xor_bytes(out@, t) == xts_decrypt_block(k1, t, p));
            lemma_xor_bytes_twice(out@, t);
            lemma_xor_bytes_twice(p, t);
            assert(xts_encrypt_block(k1, t, block_of(data@, j as int)) == p);
            assert forall|b: int| 0 <= b < j implies #[trigger] block_of(data@, b) == block_of(
                before,
                b,
            ) by {
                assert(block_of(data@, b) =~= block_of(before, b));
            }
        }
        multiply_tweak(&mut tweak);
        j = j + 1;
    }
    proof {
        let res = xts_decrypt_blocks(k1, t0, orig);
        assert forall|i: int| 0 <= i < orig.len() implies #[trigger] data@[i] == res[i] by {
            let b = i / 16;
            let o = i % 16;
            lemma_block_index(b, o);
            assert(0 <= b < n);
            assert(data@[i] == block_of(data@, b)[o]);
        }
        assert(data@ =~= res);
        let inv = xts_encrypt_blocks(k1, t0, data@);
        assert forall|i: int| 0 <= i < orig.len() implies #[trigger] inv[i] == orig[i] by {
            let b = i / 16;
            let o = i % 16;
            lemma_block_index(b, o);
            assert(orig[i] == block_of(orig, b)[o]);
        }
        assert(inv =~= orig);
    }
}


/// The tweak of block `j`, from the initial tweak `t0`.
fn tweak_after(t0: [u8; 16], j: usize) -> (t: [u8; 16])
    ensures
        t@ == tweak_at(t0@, j as nat),
{
    let mut t = t0;
    let mut i: usize = 0;
    while i < j
        invariant
            0 <= i <= j,
            t@ == tweak_at(t0@, i as nat),
        decreases j - i,
    {
        multiply_tweak(&mut t);
        i = i + 1;
    }
    t
}

/// The 16 bytes of `src` from `from` on, as an array.
fn block_at(src: &[u8], from: usize) -> (b: [u8; 16])
    requires
        from + 16 <= src@.len(),
    ensures
        b@ == src@.subrange(from as int, from + 16),
{
    let mut b = [0u8; 16];
    let len = src.len();
    let mut i: usize = 0;
    while i < 16
        invariant
            0 <= i <= 16,
            len == src@.len(),
            from + 16 <= src@.len(),
            forall|j: int| 0 <= j < i ==> b[j] == src@[from + j],
        decreases 16 - i,
    {
        b[i] = src[from + i];
        i = i + 1;
    }
    assert(b@ =~= src@.subrange(from as int, from + 16));
    b
}

/// The byte-wise exclusive or of two blocks.
fn xor_block(a: [u8; 16], b: [u8; 16]) -> (c: [u8; 16])
    ensures
        c@ == xor_bytes(a@, b@),
{
    let mut c = [0u8; 16];
    let mut i: usize = 0;
    while i < 16
        invariant
            0 <= i <= 16,
            forall|j: int| 0 <= j < i ==> c[j] == a[j] ^ b[j],
        decreases 16 - i,
    {
        c[i] = a[i] ^ b[i];
        i = i + 1;
    }
    assert(c@ =~= xor_bytes(a@, b@));
    c
}

/// One XTS block encryption under tweak `t`; decrypting the result under the
/// same tweak gives `p` back.
fn xts_block_encrypt(key1: &[u8], t: [u8; 16], p: [u8; 16]) -> (c: [u8; 16])
    requires
        key1@.len() == 32,
    ensures
        c@ == xts_encrypt_block(key1@, t@, p@),
        xts_decrypt_block(key1@, t@, c@) == p@,
{
    let input = xor_block(p, t);
    let out = aes256_encrypt_block(key1, input);
    let c = xor_block(out, t);
    proof {
        lemma_xor_bytes_twice(out@, t@);
        lemma_xor_bytes_twice(p@, t@);
    }
    c
}

/// One XTS block decryption under tweak `t`; encrypting the result under the
/// same tweak gives `c` back.
fn xts_block_decrypt(key1: &[u8], t: [u8; 16], c: [u8; 16]) -> (p: [u8; 16])
    requires
        key1@.len() == 32,
    ensures
        p@ == xts_decrypt_block(key1@, t@, c@),
        xts_encrypt_block(key1@, t@, p@) == c@,
{
    let input = xor_block(c, t);
    let out = aes256_decrypt_block(key1, input);
    let p = xor_block(out, t);
    proof {
        lemma_xor_bytes_twice(out@, t@);
        lemma_xor_bytes_twice(c@, t@);
    }
    p
}

/// `r` bytes of `front` followed by the last `16 - r` bytes of `back`.
fn splice_block(front: &[u8], r: usize, back: [u8; 16]) -> (b: [u8; 16])
    requires
        0 < r < 16,
        front@.len() == r,
    ensures
        b@ == front@ + back@.subrange(r as int, 16),
{
    let mut b = back;
    let mut i: usize = 0;
    while i < r
        invariant
            0 <= i <= r,
            r < 16,
            front@.len() == r,
            forall|j: int| 0 <= j < i ==> b[j] == front@[j],
            forall|j: int| r <= j < 16 ==> b[j] == back[j],
        decreases r - i,
    {
        b[i] = front[i];
        i = i + 1;
    }
    assert(b@ =~= front@ + back@.subrange(r as int, 16));
    b
}

/// XTS-encrypts `data` in place with ciphertext stealing (see
/// `xts_steal_encrypt`). Decrypting the result under the same key and tweak
/// gives the input back.
#[verifier::rlimit(40)]
pub(crate) fn xts_steal_encrypt_in_place(key1: &[u8], tweak0: [u8; 16], data: &mut [u8])
    requires
        key1@.len() == 32,
        xts_length_ok(old(data)@.len()),
    ensures
        final(data)@ == xts_steal_encrypt(key1@, tweak0@, old(data)@),
        final(data)@.len() == old(data)@.len(),
        xts_steal_decrypt(key1@, tweak0@, final(data)@) == old(data)@,
{
    let len = data.len();
    let r = len % 16;
    if r == 0 {
        xts_encrypt_in_place(key1, tweak0, data);
        return;
    }
    let ghost orig = data@;
    let ghost k1 = key1@;
    let ghost t0 = tweak0@;
    let m = len / 16;
    let head_len = 16 * (m - 1);
    let mut head = copy_range(data, 0, head_len);
    let ghost head_plain = head@;
    xts_encrypt_in_place(key1, tweak0, head.as_mut_slice());
    let t_prev = tweak_after(tweak0, m - 1);
    let mut t_last = t_prev;
    multiply_tweak(&mut t_last);
    let p_prev = block_at(data, head_len);
    let cc = xts_block_encrypt(key1, t_prev, p_prev);
    let tail = copy_range(data, 16 * m, r);
    let pp = splice_block(tail.as_slice(), r, cc);
    let c_prev = xts_block_encrypt(key1, t_last, pp);
    let cc_front = copy_range(cc.as_slice(), 0, r);
    write_range(data, 0, head.as_slice());
    write_range(data, head_len, c_prev.as_slice());
    write_range(data, 16 * m, cc_front.as_slice());
    proof {
        assert(t_last@ == tweak_at(t0, m as nat));
        assert(block_of(orig, m - 1) =~= p_prev@);
        assert(orig.subrange(16 * m, len as int) =~= tail@);
        assert(head_plain =~= orig.subrange(0, 16 * (m - 1)));
        let enc = xts_steal_encrypt(k1, t0, orig);
        assert(enc =~= head@ + c_prev@ + cc@.subrange(0, r as int));
        assert(data@ =~= enc);
        // Decrypting goes back step by step.
        assert(block_of(data@, m - 1) =~= c_prev@);
        assert(data@.subrange(16 * m, len as int) =~= cc@.subrange(0, r as int));
        assert(data@.subrange(16 * m, len as int) + pp@.subrange(r as int, 16) =~= cc@);
        assert(data@.subrange(0, 16 * (m - 1)) =~= head@);
        assert(pp@.subrange(0, r as int) =~= tail@);
        assert(xts_steal_decrypt(k1, t0, data@) =~= orig);
    }
}

/// XTS-decrypts `data` in place with ciphertext stealing (see
/// `xts_steal_decrypt`). Encrypting the result under the same key and tweak
/// gives the input back.
#[verifier::rlimit(40)]
pub(crate) fn xts_steal_decrypt_in_place(key1: &[u8], tweak0: [u8; 16], data: &mut [u8])
    requires
        key1@.len() == 32,
        xts_length_ok(old(data)@.len()),
    ensures
        final(data)@ == xts_steal_decrypt(key1@, tweak0@, old(data)@),
        final(data)@.len() == old(data)@.len(),
        xts_steal_encrypt(key1@, tweak0@, final(data)@) == old(data)@,
{
    let len = data.len();
    let r = len % 16;
    if r == 0 {
        xts_decrypt_in_place(key1, tweak0, data);
        return;
    }
    let ghost orig = data@;
    let ghost k1 = key1@;
    let ghost t0 = tweak0@;
    let m = len / 16;
    let head_len = 16 * (m - 1);
    let mut head = copy_range(data, 0, head_len);
    let ghost head_cipher = head@;
    xts_decrypt_in_place(key1, tweak0, head.as_mut_slice());
    let t_prev = tweak_after(tweak0, m - 1);
    let mut t_last = t_prev;
    multiply_tweak(&mut t_last);
    let c_prev = block_at(data, head_len);
    let pp = xts_block_decrypt(key1, t_last, c_prev);
    let tail = copy_range(data, 16 * m, r);
    let cc = splice_block(tail.as_slice(), r, pp);
    let p_prev = xts_block_decrypt(key1, t_prev, cc);
    let pp_front = copy_range(pp.as_slice(), 0, r);
    write_range(data, 0, head.as_slice());
    write_range(data, head_len, p_prev.as_slice());
    write_range(data, 16 * m, pp_front.as_slice());
    proof {
        assert(t_last@ == tweak_at(t0, m as nat));
        assert(block_of(orig, m - 1) =~= c_prev@);
        assert(orig.subrange(16 * m, len as int) =~= tail@);
        assert(head_cipher =~= orig.subrange(0, 16 * (m - 1)));
        let dec = xts_steal_decrypt(k1, t0, orig);
        assert(dec =~= head@ + p_prev@ + pp@.subrange(0, r as int));
        assert(data@ =~= dec);
        assert(block_of(data@, m - 1) =~= p_prev@);
        assert(data@.subrange(16 * m, len as int) =~= pp@.subrange(0, r as int));
        assert(data@.subrange(16 * m, len as int) + cc@.subrange(r as int, 16) =~= pp@);
        assert(data@.subrange(0, 16 * (m - 1)) =~= head@);
        assert(cc@.subrange(0, r as int) =~= tail@);
        assert(xts_steal_encrypt(k1, t0, data@) =~= orig);
    }
}

/// Copies `src[from..from + N]` into a fixed-size array.
pub(crate) fn copy_key_half(src: &[u8], from: usize) -> (out: [u8; 32])
    requires
        from + 32 <= src@.len(),
    ensures
        out@ == src@.subrange(from as int, from + 32),
{
    let mut out = [0u8; 32];
    let len = src.len();
    let mut i: usize = 0;
    while i < 32
        invariant
            0 <= i <= 32,
            len == src@.len(),
            from + 32 <= src@.len(),
            forall|j: int| 0 <= j < i ==> out[j] == src@[from + j],
        decreases 32 - i,
    {
        out[i] = src[from + i];
        i = i + 1;
    }
    assert(out@ =~= src@.subrange(from as int, from + 32));
    out
}

/// An XTS cipher holding its 512-bit key: the data key followed by the tweak key.
pub struct XtsCipher {
    key1: [u8; 32],
    key2: [u8; 32],
}

impl View for XtsCipher {
    type V = Seq<u8>;

    /// The 64-byte key.
    closed spec fn view(&self) -> Seq<u8> {
        self.key1@ + self.key2@
    }
}

impl XtsCipher {
    /// Creates a cipher from a 512-bit key: the first half encrypts data, the
    /// second half encrypts tweaks.
    pub fn new(key: &[u8; 64]) -> (cipher: Self)
        ensures
            cipher@ == key@,
    {
        let key1 = copy_key_half(key.as_slice(), 0);
        let key2 = copy_key_half(key.as_slice(), 32);
        let cipher = XtsCipher { key1, key2 };
        assert(cipher.key1@ + cipher.key2@ =~= key@);
        cipher
    }

    /// Encrypts a data unit (sector) in place, with ciphertext stealing for a
    /// final partial block. Decrypting the result with the same cipher and index
    /// gives the input back.
    pub fn encrypt_sector(&self, sector_index: u64, data: &mut [u8])
        requires
            xts_length_ok(old(data)@.len()),
        ensures
            final(data)@ == xts_steal_encrypt_sector(self@, sector_index, old(data)@),
            final(data)@.len() == old(data)@.len(),
            xts_steal_decrypt_sector(self@, sector_index, final(data)@) == old(data)@,
    {
        let tweak = self.generate_tweak(sector_index);
        proof {
            assert(self@.subrange(0, 32) =~= self.key1@);
            assert(self@.subrange(32, 64) =~= self.key2@);
        }
        xts_steal_encrypt_in_place(self.key1.as_slice(), tweak, data);
    }

    /// Decrypts a data unit (sector) in place, with ciphertext stealing for a
    /// final partial block. Encrypting the result with the same cipher and index
    /// gives the input back.
    pub fn decrypt_sector(&self, sector_index: u64, data: &mut [u8])
        requires
            xts_length_ok(old(data)@.len()),
        ensures
            final(data)@ == xts_steal_decrypt_sector(self@, sector_index, old(data)@),
            final(data)@.len() == old(data)@.len(),
            xts_steal_encrypt_sector(self@, sector_index, final(data)@) == old(data)@,
    {
        let tweak = self.generate_tweak(sector_index);
        proof {
            assert(self@.subrange(0, 32) =~= self.key1@);
            assert(self@.subrange(32, 64) =~= self.key2@);
        }
        xts_steal_decrypt_in_place(self.key1.as_slice(), tweak, data);
    }

    /// The initial tweak of a sector.
    fn generate_tweak(&self, sector_index: u64) -> (tweak: [u8; 16])
        ensures
            tweak@ == sector_tweak(self.key2@, sector_index),
    {
        sector_tweak_of(self.key2.as_slice(), sector_index)
    }
}

/// Bytes in little-endian order determine their value: two byte strings of one
/// length with the same value are equal.
pub proof fn lemma_le_value_injective(a: Seq<u8>, b: Seq<u8>)
    requires
        a.len() == b.len(),
        le_value(a) == le_value(b),
    ensures
        a == b,
    decreases a.len(),
{
    if a.len() > 0 {
        let ra = a.subrange(1, a.len() as int);
        let rb = b.subrange(1, b.len() as int);
        assert(le_value(ra) == le_value(rb));
        lemma_le_value_injective(ra, rb);
        assert forall|k: int| 0 <= k < a.len() implies a[k] == b[k] by {
            if k > 0 {
                assert(a[k] == ra[k - 1]);
                assert(b[k] == rb[k - 1]);
            }
        }
    }
    assert(a =~= b);
}

/// The bytes `k..8` of a sector's tweak input hold the sector index shifted
/// right by `8 * k` bits, little-endian.
proof fn lemma_tweak_input_value(i: u64, k: int)
    requires
        0 <= k < 8,
    ensures
        le_value(sector_tweak_input(i).subrange(k, 8)) == (i >> ((8 * k) as u64)) as nat,
    decreases 8 - k,
{
    let s = sector_tweak_input(i).subrange(k, 8);
    let sh = (8 * k) as u64;
    let rest = s.subrange(1, s.len() as int);
    assert(((i >> sh) & 0xffu64) < 256) by (bit_vector);
    assert(s[0] == ((i >> sh) & 0xffu64) as u8);
    assert(le_value(s) == s[0] as nat + 256 * le_value(rest));
    if k == 7 {
        assert(sh == 56);
        assert(rest =~= Seq::<u8>::empty());
        assert(le_value(rest) == 0);
        assert((i >> 56u64) & 0xffu64 == i >> 56u64) by (bit_vector);
    } else {
        lemma_tweak_input_value(i, k + 1);
        assert(rest =~= sector_tweak_input(i).subrange(k + 1, 8));
        let sh2 = (8 * (k + 1)) as u64;
        assert(((i >> sh) & 0xffu64) + 256 * (i >> sh2) == i >> sh) by (bit_vector)
            requires
                sh <= 48,
                sh2 == sh + 8,
        ;
    }
}

/// AES-256-XTS as IEEE P1619 defines it on a sector: block `j` of the
/// ciphertext is `E_k1(P_j ^ T_j) ^ T_j` and block `j` of the plaintext
/// `D_k1(C_j ^ T_j) ^ T_j`, where `k1` is the first half of the 64-byte key,
/// `T_0` is the AES-256 encryption under the second half of 16 bytes holding
/// the sector index little-endian followed by eight zero bytes, and each
/// further tweak is the one before multiplied by `x` in GF(2^128).
pub proof fn lemma_xts_sector_blocks(
    key: Seq<u8>,
    sector_index: u64,
    data: Seq<u8>,
    tweak_input: Seq<u8>,
    j: int,
)
    requires
        key.len() == 64,
        0 <= j,
        16 * j + 16 <= data.len(),
        tweak_input.len() == 16,
        le_value(tweak_input.subrange(0, 8)) == sector_index,
        forall|k: int| 8 <= k < 16 ==> tweak_input[k] == 0u8,
    ensures
        forall|k: int|
            0 <= k < 16 ==> {
                let t = tweak_at(aes256_encrypt(key.subrange(32, 64), tweak_input), j as nat);
                let k1 = key.subrange(0, 32);
                let p = xor_bytes(data.subrange(16 * j, 16 * j + 16), t);
                &&& #[trigger] xts_encrypt_sector(key, sector_index, data)[16 * j + k] == xor_bytes(
                    aes256_encrypt(k1, p),
                    t,
                )[k]
                &&& xts_decrypt_sector(key, sector_index, data)[16 * j + k] == xor_bytes(
                    aes256_decrypt(k1, p),
                    t,
                )[k]
            },
{
    let expected = sector_tweak_input(sector_index);
    lemma_tweak_input_value(sector_index, 0);
    assert(sector_index >> 0u64 == sector_index) by (bit_vector);
    assert(expected.subrange(0, 8) == tweak_input.subrange(0, 8)) by {
        lemma_le_value_injective(expected.subrange(0, 8), tweak_input.subrange(0, 8));
    }
    assert(expected =~= tweak_input) by {
        assert forall|k: int| 0 <= k < 16 implies expected[k] == tweak_input[k] by {
            if k < 8 {
                assert(expected[k] == expected.subrange(0, 8)[k]);
                assert(tweak_input[k] == tweak_input.subrange(0, 8)[k]);
            }
        }
    }
    let t = tweak_at(aes256_encrypt(key.subrange(32, 64), tweak_input), j as nat);
    assert forall|k: int| 0 <= k < 16 implies (#[trigger] xts_encrypt_sector(key, sector_index, data)[16 * j + k]
        == xor_bytes(aes256_encrypt(key.subrange(0, 32), xor_bytes(data.subrange(16 * j, 16 * j + 16), t)), t)[k])
        && xts_decrypt_sector(key, sector_index, data)[16 * j + k] == xor_bytes(aes256_decrypt(
            key.subrange(0, 32),
            xor_bytes(data.subrange(16 * j, 16 * j + 16), t),
        ), t)[k] by {
        lemma_block_index(j, k);
        assert(block_of(data, j) == data.subrange(16 * j, 16 * j + 16));
    }
}

/// One byte of a left shift by one bit: the byte doubled, with the top bit of
/// the byte below carried in.
proof fn lemma_shift_byte(a: u8, b: u8)
    by (bit_vector)
    ensures
        (((a << 1u8) | top_bit(b)) as u8) as int == (2 * a) % 256 + b / 128,
        top_bit(b) != 0 <==> b >= 128,
{
}

/// Multiplying a tweak by `x` in GF(2^128), little-endian: every byte is
/// doubled with the top bit of the byte below carried in, and when the top bit
/// of the last byte falls off, the reduction 0x87 is folded into the first.
pub proof fn lemma_gf_mul_x_shifts(t: Seq<u8>)
    requires
        t.len() == 16,
    ensures
        gf_mul_x(t).len() == 16,
        forall|i: int| 1 <= i < 16 ==> #[trigger] gf_mul_x(t)[i] as int == (2 * t[i]) % 256 + t[i - 1] / 128,
        t[15] < 128 ==> gf_mul_x(t)[0] as int == (2 * t[0]) % 256,
        t[15] >= 128 ==> gf_mul_x(t)[0] == ((((2 * t[0]) % 256) as u8) ^ 0x87u8),
{
    assert forall|i: int| 1 <= i < 16 implies #[trigger] gf_mul_x(t)[i] as int == (2 * t[i]) % 256 + t[i - 1] / 128 by {
        lemma_shift_byte(t[i], t[i - 1]);
    }
    lemma_shift_byte(t[0], 0);
    lemma_shift_byte(t[0], t[15]);
    assert(top_bit(0u8) == 0) by (bit_vector);
}

/// The tweaks of a sector's blocks: the first is the initial tweak, and each
/// next one is the one before multiplied by `x` in GF(2^128).
pub proof fn lemma_tweak_chain(t0: Seq<u8>, j: nat)
    ensures
        tweak_at(t0, 0) == t0,
        tweak_at(t0, j + 1) == gf_mul_x(tweak_at(t0, j)),
{
}

} // verus!
