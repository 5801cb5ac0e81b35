//! The calls this library makes into the cipher, key-derivation and randomness
//! crates, and into the few std functions that vstd leaves unspecified. Every
//! item here is trusted: its contract is what the library relies on, and it is
//! not proved.
use aes::cipher::{BlockDecrypt, BlockEncrypt, KeyInit};
use chacha20poly1305::aead::Aead;
use rand::RngCore;
use vstd::prelude::*;

verus! {

#[verifier::external_type_specification]
#[verifier::external_body]
pub struct ExArgon2Error(argon2::Error);

#[verifier::external_type_specification]
#[verifier::external_body]
pub struct ExAeadError(chacha20poly1305::Error);

#[verifier::external_type_specification]
#[verifier::external_body]
pub struct ExIoError(std::io::Error);

#[verifier::external_type_specification]
#[verifier::external_body]
pub struct ExSystemTime(std::time::SystemTime);

/// AES-256 encryption of one 16-byte block under a 32-byte key.
pub uninterp spec fn aes256_encrypt(key: Seq<u8>, block: Seq<u8>) -> Seq<u8>;

/// AES-256 decryption of one 16-byte block under a 32-byte key.
pub uninterp spec fn aes256_decrypt(key: Seq<u8>, block: Seq<u8>) -> Seq<u8>;

/// Encrypts one block with `aes::Aes256` (`KeyInit::new`, then
/// `BlockEncrypt::encrypt_block`). Claimed: the output is the AES-256 encryption
/// of `block` under `key`, and AES-256 decryption under the same key maps the
/// output back to `block` (the cipher is a permutation of 16-byte blocks).
#[verifier::external_body]
pub(crate) fn aes256_encrypt_block(key: &[u8], block: [u8; 16]) -> (out: [u8; 16])
    requires
        key@.len() == 32,
    ensures
        out@ == aes256_encrypt(key@, block@),
        aes256_decrypt(key@, out@) == block@,
{
    let cipher = aes::Aes256::new(aes::cipher::generic_array::GenericArray::from_slice(key));
    let mut b = aes::Block::from(block);
    cipher.encrypt_block(&mut b);
    b.into()
}

/// Decrypts one block with `aes::Aes256` (`KeyInit::new`, then
/// `BlockDecrypt::decrypt_block`). Claimed: the output is the AES-256 decryption
/// of `block` under `key`, and encrypting the output under the same key gives
/// `block` again.
#[verifier::external_body]
pub(crate) fn aes256_decrypt_block(key: &[u8], block: [u8; 16]) -> (out: [u8; 16])
    requires
        key@.len() == 32,
    ensures
        out@ == aes256_decrypt(key@, block@),
        aes256_encrypt(key@, out@) == block@,
{
    let cipher = aes::Aes256::new(aes::cipher::generic_array::GenericArray::from_slice(key));
    let mut b = aes::Block::from(block);
    cipher.decrypt_block(&mut b);
    b.into()
}

/// Fills `buf` from `rand::thread_rng()` with `RngCore::fill_bytes`. The bytes
/// are random: nothing is claimed of them.
#[verifier::external_body]
pub(crate) fn fill_random(buf: &mut [u8])
    ensures
        final(buf)@.len() == old(buf)@.len(),
{
    rand::thread_rng().fill_bytes(buf);
}

/// Reads `std::time::SystemTime::now()` as whole seconds since the Unix epoch
/// (`duration_since(UNIX_EPOCH)`, then `as_secs`); `None` when the clock is set
/// before 1970. The value depends on the clock, so nothing is claimed of it.
#[verifier::external_body]
pub(crate) fn clock_seconds() -> (secs: Option<u64>) {
    match std::time::SystemTime::now().duration_since(std::time::UNIX_EPOCH) {
        Ok(d) => Some(d.as_secs()),
        Err(_) => None,
    }
}

/// The most seconds after the Unix epoch that a `SystemTime` holds on every
/// platform: `(i64::MAX - 116_444_736_000_000_000) / 10_000_000`, the Windows
/// limit.
pub const MAX_SYSTEM_TIME_SECS: u64 = 910_692_730_085;

/// The `SystemTime` that lies `secs` seconds after `UNIX_EPOCH`.
pub uninterp spec fn system_time_after_epoch(secs: u64) -> std::time::SystemTime;

/// `UNIX_EPOCH + Duration::from_secs(secs)`. Claimed: the result is a function
/// of `secs` alone. The bound keeps the addition inside the range of every
/// platform's `SystemTime`; the narrowest is Windows, which counts 100 ns
/// intervals since 1601 in an `i64`, and the addition panics beyond it.
#[verifier::external_body]
pub(crate) fn system_time_from_unix_secs(secs: u64) -> (t: std::time::SystemTime)
    requires
        secs <= MAX_SYSTEM_TIME_SECS,
    ensures
        t == system_time_after_epoch(secs),
{
    std::time::UNIX_EPOCH + std::time::Duration::from_secs(secs)
}

/// Whether a UTF-16 code unit is a high (leading) surrogate.
pub open spec fn high_surrogate(u: u16) -> bool {
    0xD800 <= u <= 0xDBFF
}

/// Whether a UTF-16 code unit is a low (trailing) surrogate.
pub open spec fn low_surrogate(u: u16) -> bool {
    0xDC00 <= u <= 0xDFFF
}

/// The text UTF-16 code units decode to, an unpaired surrogate replaced by
/// U+FFFD: a unit outside the surrogates is its own code point, a high
/// surrogate followed by a low one is the pair's code point, and any other
/// surrogate is replaced on its own.
pub open spec fn utf16_lossy(units: Seq<u16>) -> Seq<char>
    decreases units.len(),
{
    if units.len() == 0 {
        Seq::empty()
    } else {
        let u = units[0];
        if !high_surrogate(u) && !low_surrogate(u) {
            seq![u as char] + utf16_lossy(units.drop_first())
        } else if high_surrogate(u) && units.len() >= 2 && low_surrogate(units[1]) {
            let c = 0x10000 + (u - 0xD800) * 0x400 + (units[1] - 0xDC00);
            seq![c as char] + utf16_lossy(units.subrange(2, units.len() as int))
        } else {
            seq!['\u{FFFD}'] + utf16_lossy(units.drop_first())
        }
    }
}

/// `String::from_utf16_lossy`: claimed to decode as `utf16_lossy` says, which
/// is what `char::decode_utf16` does with each unpaired surrogate mapped to
/// U+FFFD, as std documents.
#[verifier::external_body]
pub(crate) fn string_from_utf16_lossy(units: &[u16]) -> (s: String)
    ensures
        s@ == utf16_lossy(units@),
{
    String::from_utf16_lossy(units)
}

/// What `argon2::Params::new` accepts (params.rs of argon2 0.5): at least 8 KiB
/// of memory and 8 KiB per lane, at least one pass, between 1 and 2^24 - 1
/// lanes, and an output of 4 to 2^32 - 1 bytes.
pub open spec fn argon2_params_accepted(
    m_cost: u32,
    t_cost: u32,
    p_cost: u32,
    output_len: usize,
) -> bool {
    &&& m_cost >= 8
    &&& m_cost >= 8 * p_cost
    &&& t_cost >= 1
    &&& p_cost >= 1
    &&& p_cost <= 0xFF_FFFF
    &&& output_len >= 4
    &&& output_len <= 0xFFFF_FFFF
}

/// Inputs on which `argon2::Params::new` does not overflow `p_cost * 8`.
pub open spec fn argon2_params_in_range(m_cost: u32, p_cost: u32) -> bool {
    m_cost < 8 || p_cost <= 0x1FFF_FFFF
}

/// What `Argon2::hash_password_into` accepts besides its parameters: a password
/// of at most 2^32 - 1 bytes and a salt of 8 to 2^32 - 1 bytes.
pub open spec fn argon2_inputs_accepted(password_len: nat, salt_len: nat) -> bool {
    password_len <= 0xFFFF_FFFF && 8 <= salt_len && salt_len <= 0xFFFF_FFFF
}

/// The Argon2id (version 0x13) output for these inputs.
pub uninterp spec fn argon2id_output(
    password: Seq<u8>,
    salt: Seq<u8>,
    m_cost: u32,
    t_cost: u32,
    p_cost: u32,
    output_len: nat,
) -> Seq<u8>;

/// `argon2::Params::new(m_cost, t_cost, p_cost, Some(output_len))`, the returned
/// parameters dropped. Claimed, from its source: it succeeds exactly on the
/// accepted parameters.
#[verifier::external_body]
pub(crate) fn argon2_check_params(
    m_cost: u32,
    t_cost: u32,
    p_cost: u32,
    output_len: usize,
) -> (r: Result<(), argon2::Error>)
    requires
        argon2_params_in_range(m_cost, p_cost),
    ensures
        r is Ok <==> argon2_params_accepted(m_cost, t_cost, p_cost, output_len),
{
    argon2::Params::new(m_cost, t_cost, p_cost, Some(output_len)).map(|_| ())
}

/// `Argon2::new(Algorithm::Argon2id, Version::V0x13, params).hash_password_into`
/// with `params` built by `Params::new(m_cost, t_cost, p_cost, Some(out.len()))`.
/// Claimed, from its source: it fails exactly when the password or the salt is
/// out of range, and on success `out` holds the Argon2id output.
#[verifier::external_body]
pub(crate) fn argon2id_hash_into(
    password: &[u8],
    salt: &[u8],
    m_cost: u32,
    t_cost: u32,
    p_cost: u32,
    out: &mut [u8],
) -> (r: Result<(), argon2::Error>)
    requires
        argon2_params_accepted(m_cost, t_cost, p_cost, old(out)@.len() as usize),
    ensures
        final(out)@.len() == old(out)@.len(),
        r is Ok <==> argon2_inputs_accepted(password@.len(), salt@.len()),
        r is Ok ==> final(out)@ == argon2id_output(
            password@,
            salt@,
            m_cost,
            t_cost,
            p_cost,
            old(out)@.len(),
        ),
{
    let params = argon2::Params::new(m_cost, t_cost, p_cost, Some(out.len())).expect(
        "parameters accepted",
    );
    argon2::Argon2::new(argon2::Algorithm::Argon2id, argon2::Version::V0x13, params)
        .hash_password_into(password, salt, out)
}

/// The `Debug` text of an `argon2::Error`, as `format!("{:?}", e)` writes it.
/// Nothing is claimed of the text.
#[verifier::external_body]
pub(crate) fn argon2_error_text(e: &argon2::Error) -> (text: String) {
    format!("{:?}", e)
}

/// The `Debug` text of a `chacha20poly1305::Error`, as `format!("{:?}", e)`
/// writes it. Nothing is claimed of the text.
#[verifier::external_body]
pub(crate) fn aead_error_text(e: &chacha20poly1305::Error) -> (text: String) {
    format!("{:?}", e)
}

/// ChaCha20-Poly1305 sealing (no associated data): ciphertext followed by tag.
pub uninterp spec fn chacha20poly1305_seal(key: Seq<u8>, nonce: Seq<u8>, plaintext: Seq<u8>) -> Seq<u8>;

/// ChaCha20-Poly1305 opening (no associated data): the plaintext, or `None` when
/// the tag does not verify.
pub uninterp spec fn chacha20poly1305_open(key: Seq<u8>, nonce: Seq<u8>, ciphertext: Seq<u8>) -> Option<Seq<u8>>;

/// Message lengths ChaCha20-Poly1305 encrypts (cipher.rs of chacha20poly1305
/// 0.10): fewer than 2^32 - 1 blocks of 64 bytes.
pub open spec fn chacha20poly1305_len_ok(len: nat) -> bool {
    len / 64 < 0xFFFF_FFFF
}

/// `ChaCha20Poly1305::new(key)` then `Aead::encrypt(nonce, plaintext)`. Claimed:
/// it fails exactly on over-long messages; otherwise the result is the sealing
/// of the inputs, the ciphertext followed by the 16-byte tag, and opening it
/// with the same key and nonce gives the plaintext back.
#[verifier::external_body]
pub(crate) fn chacha20poly1305_encrypt(key: &[u8], nonce: &[u8], plaintext: &[u8]) -> (r: Result<
    Vec<u8>,
    chacha20poly1305::Error,
>)
    requires
        key@.len() == 32,
        nonce@.len() == 12,
    ensures
        r is Ok <==> chacha20poly1305_len_ok(plaintext@.len()),
        r matches Ok(c) ==> c@ == chacha20poly1305_seal(key@, nonce@, plaintext@)
            && chacha20poly1305_open(key@, nonce@, c@) == Some(plaintext@)
            && c@.len() == plaintext@.len() + 16,
{
    let cipher = chacha20poly1305::ChaCha20Poly1305::new(
        chacha20poly1305::aead::generic_array::GenericArray::from_slice(key),
    );
    cipher.encrypt(chacha20poly1305::Nonce::from_slice(nonce), plaintext)
}

/// `ChaCha20Poly1305::new(key)` then `Aead::decrypt(nonce, ciphertext)`. Claimed:
/// it succeeds exactly when the named opening does, with that plaintext, and a
/// ciphertext shorter than the 16-byte tag fails (aead's `decrypt_in_place`
/// checks the length before anything else).
#[verifier::external_body]
pub(crate) fn chacha20poly1305_decrypt(key: &[u8], nonce: &[u8], ciphertext: &[u8]) -> (r: Result<
    Vec<u8>,
    chacha20poly1305::Error,
>)
    requires
        key@.len() == 32,
        nonce@.len() == 12,
    ensures
        match chacha20poly1305_open(key@, nonce@, ciphertext@) {
            Some(p) => r matches Ok(q) && q@ == p,
            None => r is Err,
        },
        ciphertext@.len() < 16 ==> r is Err,
{
    let cipher = chacha20poly1305::ChaCha20Poly1305::new(
        chacha20poly1305::aead::generic_array::GenericArray::from_slice(key),
    );
    cipher.decrypt(chacha20poly1305::Nonce::from_slice(nonce), ciphertext)
}

} // verus!
