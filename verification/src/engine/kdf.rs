//! Password-based key derivation with Argon2id.
use crate::engine::crypto::generate_salt as random_bytes;
use crate::engine::primitives::{
    argon2_check_params, argon2_error_text, argon2_inputs_accepted, argon2_params_accepted,
    argon2_params_in_range, argon2id_hash_into, argon2id_output,
};
use crate::engine::{CrossCryptError, KdfAlgorithm};
use vstd::prelude::*;

verus! {

/// Size of a volume's salt.
pub const DEFAULT_SALT_SIZE: usize = 32;

/// Size of a derived key: 512 bits, as XTS takes.
pub const DEFAULT_KEY_SIZE: usize = 64;

/// The key Argon2id derives from a password and salt with the given costs.
pub open spec fn argon2id_key(
    password: Seq<u8>,
    salt: Seq<u8>,
    iterations: u32,
    memory_kb: u32,
    parallelism: u32,
) -> Seq<u8> {
    argon2id_output(password, salt, memory_kb, iterations, parallelism, DEFAULT_KEY_SIZE as nat)
}

/// Whether Argon2id derives a key with these inputs.
pub open spec fn argon2id_accepts(
    password_len: nat,
    salt_len: nat,
    iterations: u32,
    memory_kb: u32,
    parallelism: u32,
) -> bool {
    argon2_params_accepted(memory_kb, iterations, parallelism, DEFAULT_KEY_SIZE)
        && argon2_inputs_accepted(password_len, salt_len)
}

/// Whether the cost parameters of a key-derivation setting are in the range
/// the parameter check handles.
pub open spec fn kdf_in_range(kdf: KdfAlgorithm) -> bool {
    match kdf {
        KdfAlgorithm::Argon2id { iterations: _, memory_kb, parallelism } => argon2_params_in_range(
            memory_kb,
            parallelism,
        ),
    }
}

/// Whether a key-derivation setting derives a key from a password and salt of these lengths.
pub open spec fn kdf_accepts(kdf: KdfAlgorithm, password_len: nat, salt_len: nat) -> bool {
    match kdf {
        KdfAlgorithm::Argon2id { iterations, memory_kb, parallelism } => argon2id_accepts(
            password_len,
            salt_len,
            iterations,
            memory_kb,
            parallelism,
        ),
    }
}

/// The key a key-derivation setting derives from a password and salt.
pub open spec fn kdf_key(kdf: KdfAlgorithm, password: Seq<u8>, salt: Seq<u8>) -> Seq<u8> {
    match kdf {
        KdfAlgorithm::Argon2id { iterations, memory_kb, parallelism } => argon2id_key(
            password,
            salt,
            iterations,
            memory_kb,
            parallelism,
        ),
    }
}

/// Whether a key-derivation setting is in the range the parameter check
/// handles (see `kdf_in_range`).
pub fn kdf_params_in_range(kdf: &KdfAlgorithm) -> (ok: bool)
    ensures
        ok == kdf_in_range(*kdf),
{
    match kdf {
        KdfAlgorithm::Argon2id { iterations: _, memory_kb, parallelism } => *memory_kb < 8
            || *parallelism <= 0x1FFF_FFFF,
    }
}

/// Derives keys from passwords.
pub struct KdfEngine;

impl KdfEngine {
    /// Derives a 64-byte key from a password with Argon2id. Parameters that
    /// Argon2 refuses, a salt shorter than 8 bytes or inputs longer than
    /// 2^32 - 1 bytes give an error; the same inputs always give the same key.
    pub fn argon2id(
        password: &[u8],
        salt: &[u8],
        iterations: u32,
        memory_kb: u32,
        parallelism: u32,
    ) -> (r: Result<Vec<u8>, CrossCryptError>)
        requires
            argon2_params_in_range(memory_kb, parallelism),
        ensures
            r is Ok <==> argon2id_accepts(
                password@.len(),
                salt@.len(),
                iterations,
                memory_kb,
                parallelism,
            ),
            r matches Ok(key) ==> key@ == argon2id_key(
                password@,
                salt@,
                iterations,
                memory_kb,
                parallelism,
            ) && key@.len() == DEFAULT_KEY_SIZE,
            r matches Ok(key) ==> key@ == argon2id_output(
                password@,
                salt@,
                memory_kb,
                iterations,
                parallelism,
                64,
            ),
            r matches Err(e) ==> e is Crypto,
    {
        match argon2_check_params(memory_kb, iterations, parallelism, DEFAULT_KEY_SIZE) {
            Ok(()) => {},
            Err(e) => {
                let mut msg = String::from_str("Argon2id params failed: ");
                let text = argon2_error_text(&e);
                msg.append(text.as_str());
                return Err(CrossCryptError::Crypto(msg));
            },
        }
        let mut key = vec![0u8; DEFAULT_KEY_SIZE];
        match argon2id_hash_into(
            password,
            salt,
            memory_kb,
            iterations,
            parallelism,
            key.as_mut_slice(),
        ) {
            Ok(()) => Ok(key),
            Err(e) => {
                let mut msg = String::from_str("Argon2id failed: ");
                let text = argon2_error_text(&e);
                msg.append(text.as_str());
                Err(CrossCryptError::Crypto(msg))
            },
        }
    }

    /// Generates a random 32-byte salt.
    pub fn generate_salt() -> (salt: Vec<u8>)
        ensures
            salt@.len() == DEFAULT_SALT_SIZE,
    {
        random_bytes(DEFAULT_SALT_SIZE)
    }
}

/// Argon2id cost parameters.
pub struct Argon2idParams {
    pub iterations: u32,
    pub memory_kb: u32,
    pub parallelism: u32,
}

impl Default for Argon2idParams {
    /// Three passes over 64 MiB with four lanes.
    fn default() -> (params: Self)
        ensures
            params.iterations == 3,
            params.memory_kb == 64 * 1024,
            params.parallelism == 4,
    {
        Argon2idParams { iterations: 3, memory_kb: 64 * 1024, parallelism: 4 }
    }
}

impl Argon2idParams {
    /// Conservative parameters for maximum security: four passes over 256 MiB
    /// with four lanes.
    pub fn conservative() -> (params: Self)
        ensures
            params.iterations == 4,
            params.memory_kb == 256 * 1024,
            params.parallelism == 4,
    {
        Argon2idParams { iterations: 4, memory_kb: 256 * 1024, parallelism: 4 }
    }

    /// Fast parameters for testing: one pass over 8 MiB with one lane.
    pub fn fast() -> (params: Self)
        ensures
            params.iterations == 1,
            params.memory_kb == 8 * 1024,
            params.parallelism == 1,
    {
        Argon2idParams { iterations: 1, memory_kb: 8 * 1024, parallelism: 1 }
    }
}

/// A key-derivation setting hands its costs to Argon2id unchanged: the key it
/// derives is the 64-byte Argon2id output with the setting's iterations as the
/// time cost, its memory as the memory cost and its parallelism as the lanes.
pub proof fn lemma_kdf_key_is_argon2id(
    iterations: u32,
    memory_kb: u32,
    parallelism: u32,
    password: Seq<u8>,
    salt: Seq<u8>,
)
    ensures
        kdf_key(KdfAlgorithm::Argon2id { iterations, memory_kb, parallelism }, password, salt)
            == argon2id_output(password, salt, memory_kb, iterations, parallelism, 64),
        argon2id_key(password, salt, iterations, memory_kb, parallelism) == argon2id_output(
            password,
            salt,
            memory_kb,
            iterations,
            parallelism,
            64,
        ),
{
}

/// Exactly the inputs Argon2id refuses are refused: at least 8 KiB of memory
/// and 8 KiB per lane, at least one pass, 1 to 2^24 - 1 lanes, a password of at
/// most 2^32 - 1 bytes and a salt of 8 to 2^32 - 1 bytes.
pub proof fn lemma_argon2id_accepts_exactly(
    password_len: nat,
    salt_len: nat,
    iterations: u32,
    memory_kb: u32,
    parallelism: u32,
)
    ensures
        argon2id_accepts(password_len, salt_len, iterations, memory_kb, parallelism) <==> {
            &&& memory_kb >= 8
            &&& memory_kb >= 8 * parallelism
            &&& iterations >= 1
            &&& 1 <= parallelism <= 0xFF_FFFF
            &&& password_len <= 0xFFFF_FFFF
            &&& 8 <= salt_len <= 0xFFFF_FFFF
        },
{
}

} // verus!
