//! Byte-range helpers and the arithmetic facts about fixed-size units that the
//! sector, block and chunk loops rely on.
use vstd::arithmetic::div_mod::lemma_fundamental_div_mod;
use vstd::arithmetic::mul::{lemma_mul_inequality, lemma_mul_is_distributive_add_other_way};
use vstd::prelude::*;

verus! {

/// A copy of `src[from..from + len]`.
pub fn copy_range(src: &[u8], from: usize, len: usize) -> (out: Vec<u8>)
    requires
        from + len <= src@.len(),
    ensures
        out@ == src@.subrange(from as int, from + len),
{
    let mut out: Vec<u8> = Vec::with_capacity(len);
    let total = src.len();
    let mut i: usize = 0;
    while i < len
        invariant
            0 <= i <= len,
            total == src@.len(),
            from + len <= src@.len(),
            out@ == src@.subrange(from as int, from + i),
        decreases len - i,
    {
        out.push(src[from + i]);
        i = i + 1;
        assert(out@ =~= src@.subrange(from as int, from + i));
    }
    out
}

/// Overwrites `dst[from..from + src.len()]` with `src`.
pub fn write_range(dst: &mut [u8], from: usize, src: &[u8])
    requires
        from + src@.len() <= old(dst)@.len(),
    ensures
        final(dst)@ == old(dst)@.subrange(0, from as int) + src@ + old(dst)@.subrange(
            from + src@.len(),
            old(dst)@.len() as int,
        ),
{
    let ghost orig = dst@;
    let n = src.len();
    let total = dst.len();
    let mut i: usize = 0;
    while i < n
        invariant
            0 <= i <= n,
            total == orig.len(),
            n == src@.len(),
            from + n <= orig.len(),
            dst@.len() == orig.len(),
            forall|j: int| 0 <= j < from ==> dst@[j] == orig[j],
            forall|j: int| 0 <= j < i ==> dst@[from + j] == src@[j],
            forall|j: int| from + i <= j < orig.len() ==> dst@[j] == orig[j],
        decreases n - i,
    {
        dst[from + i] = src[i];
        i = i + 1;
    }
    assert(dst@ =~= orig.subrange(0, from as int) + src@ + orig.subrange(from + n, orig.len() as int));
}

/// Unit `s` of size `size` ends no later than unit `t` starts when `s < t`.
pub proof fn lemma_unit_before(s: int, t: int, size: int)
    requires
        0 <= s < t,
        size > 0,
    ensures
        s * size + size <= t * size,
{
    lemma_mul_is_distributive_add_other_way(size, s, 1);
    lemma_mul_inequality(s + 1, t, size);
}

/// Unit `s` lies inside `len` bytes when `s < len / size`.
pub proof fn lemma_unit_fits(s: int, len: int, size: int)
    requires
        0 <= s < len / size,
        size > 0,
        len >= 0,
    ensures
        s * size + size <= (len / size) * size,
        (len / size) * size <= len,
        0 <= s * size,
{
    lemma_unit_before(s, len / size, size);
    lemma_fundamental_div_mod(len, size);
    vstd::arithmetic::mul::lemma_mul_is_commutative(size, len / size);
    vstd::arithmetic::mul::lemma_mul_nonnegative(s, size);
}

/// The next unit starts where this one ends.
pub proof fn lemma_next_unit(s: int, size: int)
    ensures
        (s + 1) * size == s * size + size,
{
    lemma_mul_is_distributive_add_other_way(size, s, 1);
}

/// The unit holding the last of `len` bytes: the unit after the last whole one
/// when a partial unit remains, else the last whole one.
pub proof fn lemma_last_unit(len: int, size: int)
    requires
        len > 0,
        size > 0,
    ensures
        len % size != 0 ==> (len - 1) / size == len / size,
        len % size == 0 ==> (len - 1) / size == len / size - 1,
{
    lemma_fundamental_div_mod(len, size);
    vstd::arithmetic::mul::lemma_mul_is_commutative(size, len / size);
    if len % size != 0 {
        vstd::arithmetic::div_mod::lemma_fundamental_div_mod_converse(
            len - 1,
            size,
            len / size,
            len % size - 1,
        );
    } else {
        lemma_mul_is_distributive_add_other_way(size, len / size - 1, 1);
        vstd::arithmetic::div_mod::lemma_fundamental_div_mod_converse(
            len - 1,
            size,
            len / size - 1,
            size - 1,
        );
    }
}

/// `256^n`.
pub open spec fn pow256(n: nat) -> nat
    decreases n,
{
    if n == 0 {
        1
    } else {
        256 * pow256((n - 1) as nat)
    }
}

/// The unsigned value of bytes in little-endian order.
pub open spec fn le_value(s: Seq<u8>) -> nat
    decreases s.len(),
{
    if s.len() == 0 {
        0
    } else {
        (s[0] as nat) + 256 * le_value(s.subrange(1, s.len() as int))
    }
}

/// The two's-complement value of bytes in little-endian order, the top bit of
/// the last byte being the sign (no bytes give 0).
pub open spec fn le_signed_value(s: Seq<u8>) -> int {
    if s.len() > 0 && s[s.len() - 1] >= 0x80 {
        le_value(s) - pow256(s.len())
    } else {
        le_value(s) as int
    }
}

/// The little-endian value of `n` bytes of `data` from `off`.
pub open spec fn le_at(data: Seq<u8>, off: int, n: int) -> nat {
    le_value(data.subrange(off, off + n))
}

/// `256^n` is positive and grows with `n`.
pub proof fn lemma_pow256_facts(n: nat)
    ensures
        pow256(n) >= 1,
        pow256(n + 1) == 256 * pow256(n),
        n <= 8 ==> pow256(n) <= pow256(8),
        pow256(1) == 256,
        pow256(2) == 0x1_0000,
        pow256(4) == 0x1_0000_0000,
        pow256(7) == 0x100_0000_0000_0000,
        pow256(8) == 0x1_0000_0000_0000_0000,
    decreases n,
{
    reveal_with_fuel(pow256, 9);
    if n > 0 {
        lemma_pow256_facts((n - 1) as nat);
    }
}

/// The value of `n` bytes is below `256^n`.
pub proof fn lemma_le_value_bound(s: Seq<u8>)
    ensures
        le_value(s) < pow256(s.len()),
    decreases s.len(),
{
    if s.len() > 0 {
        lemma_le_value_bound(s.subrange(1, s.len() as int));
        lemma_pow256_facts((s.len() - 1) as nat);
    }
}

/// A value whose last byte has its top bit set is at least half of `256^n`.
pub proof fn lemma_le_value_top_bit(s: Seq<u8>)
    requires
        s.len() > 0,
        s[s.len() - 1] >= 0x80,
    ensures
        2 * le_value(s) >= pow256(s.len()),
    decreases s.len(),
{
    lemma_pow256_facts((s.len() - 1) as nat);
    if s.len() > 1 {
        let rest = s.subrange(1, s.len() as int);
        assert(rest[rest.len() - 1] == s[s.len() - 1]);
        lemma_le_value_top_bit(rest);
    } else {
        assert(s.subrange(1, 1) =~= Seq::<u8>::empty());
        reveal_with_fuel(pow256, 2);
    }
}

/// Reads the little-endian value of `n <= 8` bytes of `data` from `off`.
pub fn read_le(data: &[u8], off: usize, n: usize) -> (v: u64)
    requires
        n <= 8,
        off + n <= data@.len(),
    ensures
        v == le_at(data@, off as int, n as int),
{
    let ghost s = data@.subrange(off as int, off + n);
    let mut v: u64 = 0;
    let total = data.len();
    let mut i: usize = n;
    proof {
        lemma_pow256_facts(8);
    }
    while i > 0
        invariant
            0 <= i <= n <= 8,
            total == data@.len(),
            off + n <= data@.len(),
            s == data@.subrange(off as int, off + n),
            v == le_value(s.subrange(i as int, n as int)),
            v < pow256((n - i) as nat),
            pow256(8) == 0x1_0000_0000_0000_0000,
        decreases i,
    {
        proof {
            lemma_pow256_facts((n - i) as nat);
            if n - i < 8 {
                lemma_pow256_facts((n - i + 1) as nat);
                assert(pow256((n - i + 1) as nat) <= pow256(8)) by {
                    lemma_pow256_monotone((n - i + 1) as nat, 8);
                }
            }
        }
        let b = data[off + i - 1];
        v = v * 256 + b as u64;
        i = i - 1;
        proof {
            let t = s.subrange(i as int, n as int);
            assert(t.subrange(1, t.len() as int) =~= s.subrange(i + 1, n as int));
            assert(t[0] == b);
        }
    }
    assert(s.subrange(0, n as int) =~= s);
    v
}

/// `256^m <= 256^n` for `m <= n`.
pub proof fn lemma_pow256_monotone(m: nat, n: nat)
    requires
        m <= n,
    ensures
        pow256(m) <= pow256(n),
    decreases n,
{
    if m < n {
        lemma_pow256_monotone(m, (n - 1) as nat);
        lemma_pow256_facts((n - 1) as nat);
    }
}

/// Reads a little-endian `u16` at `off`.
pub fn read_u16(data: &[u8], off: usize) -> (v: u16)
    requires
        off + 2 <= data@.len(),
    ensures
        v == le_at(data@, off as int, 2),
{
    let v = read_le(data, off, 2);
    proof {
        lemma_le_value_bound(data@.subrange(off as int, off + 2));
        lemma_pow256_facts(2);
    }
    v as u16
}

/// Reads a little-endian `u32` at `off`.
pub fn read_u32(data: &[u8], off: usize) -> (v: u32)
    requires
        off + 4 <= data@.len(),
    ensures
        v == le_at(data@, off as int, 4),
{
    let v = read_le(data, off, 4);
    proof {
        lemma_le_value_bound(data@.subrange(off as int, off + 4));
        lemma_pow256_facts(4);
    }
    v as u32
}

/// Reads a little-endian `u64` at `off`.
pub fn read_u64(data: &[u8], off: usize) -> (v: u64)
    requires
        off + 8 <= data@.len(),
    ensures
        v == le_at(data@, off as int, 8),
{
    read_le(data, off, 8)
}

/// Reads the two's-complement little-endian value of `n <= 8` bytes from `off`.
pub fn read_le_signed(data: &[u8], off: usize, n: usize) -> (v: i64)
    requires
        n <= 8,
        off + n <= data@.len(),
    ensures
        v == le_signed_value(data@.subrange(off as int, off + n)),
{
    let ghost s = data@.subrange(off as int, off + n);
    let total = data.len();
    let u = read_le(data, off, n);
    proof {
        lemma_le_value_bound(s);
        lemma_pow256_facts(n as nat);
        lemma_pow256_monotone(n as nat, 8);
        lemma_pow256_facts(8);
    }
    if n > 0 && data[off + n - 1] >= 0x80 {
        proof {
            assert(s[s.len() - 1] == data@[off + n - 1]);
            lemma_le_value_top_bit(s);
        }
        let top = max_le(n);
        let below = top - u;
        -(below as i64) - 1
    } else {
        proof {
            if n > 0 {
                assert(s[s.len() - 1] == data@[off + n - 1]);
                lemma_le_value_top_clear(s);
            }
        }
        u as i64
    }
}

/// A value whose last byte has its top bit clear is below half of `256^n`.
pub proof fn lemma_le_value_top_clear(s: Seq<u8>)
    requires
        s.len() > 0,
        s[s.len() - 1] < 0x80,
    ensures
        2 * le_value(s) < pow256(s.len()),
    decreases s.len(),
{
    lemma_pow256_facts((s.len() - 1) as nat);
    if s.len() > 1 {
        let rest = s.subrange(1, s.len() as int);
        assert(rest[rest.len() - 1] == s[s.len() - 1]);
        lemma_le_value_top_clear(rest);
        assert(le_value(s) == s[0] + 256 * le_value(rest));
        assert(pow256(s.len()) == 256 * pow256(rest.len()));
        assert(2 * le_value(s) == 2 * s[0] + 256 * (2 * le_value(rest)));
    } else {
        assert(s.subrange(1, 1) =~= Seq::<u8>::empty());
        reveal_with_fuel(pow256, 2);
        assert(le_value(s.subrange(1, 1)) == 0);
        assert(le_value(s) == s[0]);
    }
}

/// The largest value of `n` bytes, `256^n - 1`.
fn max_le(n: usize) -> (m: u64)
    requires
        1 <= n <= 8,
    ensures
        m == pow256(n as nat) - 1,
{
    proof {
        lemma_pow256_facts(8);
    }
    let mut m: u64 = 255;
    let mut i: usize = 1;
    while i < n
        invariant
            1 <= i <= n <= 8,
            m == pow256(i as nat) - 1,
            pow256(8) == 0x1_0000_0000_0000_0000,
        decreases n - i,
    {
        proof {
            lemma_pow256_facts(i as nat);
            lemma_pow256_monotone((i + 1) as nat, 8);
        }
        m = m * 256 + 255;
        i = i + 1;
    }
    m
}

/// The `n` little-endian bytes of `v` (its value modulo `256^n`).
pub open spec fn le_bytes(v: nat, n: nat) -> Seq<u8>
    decreases n,
{
    if n == 0 {
        Seq::empty()
    } else {
        seq![(v % 256) as u8] + le_bytes(v / 256, (n - 1) as nat)
    }
}

/// Reading back the little-endian bytes of a value that fits gives the value.
pub proof fn lemma_le_bytes_value(v: nat, n: nat)
    requires
        v < pow256(n),
    ensures
        le_bytes(v, n).len() == n,
        le_value(le_bytes(v, n)) == v,
    decreases n,
{
    if n > 0 {
        let m = (n - 1) as nat;
        assert(pow256(n) == 256 * pow256(m));
        assert(v / 256 < pow256(m)) by {
            vstd::arithmetic::div_mod::lemma_fundamental_div_mod(v as int, 256);
        }
        lemma_le_bytes_value(v / 256, m);
        let s = le_bytes(v, n);
        assert(s.subrange(1, s.len() as int) =~= le_bytes(v / 256, m));
        vstd::arithmetic::div_mod::lemma_fundamental_div_mod(v as int, 256);
    } else {
        assert(pow256(0) == 1);
    }
}

/// The eight-byte two's-complement form of `v`, as an unsigned value.
pub open spec fn twos_complement_64(v: i64) -> nat {
    if v < 0 {
        (v + 0x1_0000_0000_0000_0000) as nat
    } else {
        v as nat
    }
}

/// Reading back the eight little-endian two's-complement bytes of a signed
/// value gives the value.
pub proof fn lemma_le_signed_bytes_value(v: i64)
    ensures
        le_bytes(twos_complement_64(v), 8).len() == 8,
        le_signed_value(le_bytes(twos_complement_64(v), 8)) == v,
{
    lemma_pow256_facts(8);
    let u = twos_complement_64(v);
    lemma_le_bytes_value(u, 8);
    let s = le_bytes(u, 8);
    if s[7] >= 0x80 {
        lemma_le_value_top_bit(s);
    } else {
        lemma_le_value_top_clear(s);
    }
}

} // verus!
