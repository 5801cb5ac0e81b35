//! Volume-level types and the decisions of creating, opening and locking a volume.
pub mod bytes;
pub mod crypto;
pub mod format;
pub mod kdf;
pub mod primitives;
pub mod text;
pub mod volume;
pub mod xts;

pub use volume::CrossCryptVolume;

use crate::engine::primitives::clock_seconds;
use crate::engine::text::{decimal_text, u64_to_text};
use vstd::prelude::*;

verus! {

/// The sector cipher of a volume.
#[derive(Debug, Clone, Copy, PartialEq, Eq, Structural)]
pub enum CryptoAlgorithm {
    Aes256Xts,
}

/// The password key-derivation function of a volume, with its cost parameters.
#[derive(Debug, Clone, Copy, PartialEq, Eq, Structural)]
pub enum KdfAlgorithm {
    Argon2id { iterations: u32, memory_kb: u32, parallelism: u32 },
}

/// How a volume is encrypted.
#[derive(Debug)]
pub struct EncryptionConfig {
    pub algorithm: CryptoAlgorithm,
    pub kdf: KdfAlgorithm,
    pub sector_size: u32,
    pub label: Option<String>,
}

/// An encryption configuration with its label taken as characters.
pub struct EncryptionConfigView {
    pub algorithm: CryptoAlgorithm,
    pub kdf: KdfAlgorithm,
    pub sector_size: u32,
    pub label: Option<Seq<char>>,
}

impl View for EncryptionConfig {
    type V = EncryptionConfigView;

    open spec fn view(&self) -> EncryptionConfigView {
        EncryptionConfigView {
            algorithm: self.algorithm,
            kdf: self.kdf,
            sector_size: self.sector_size,
            label: match self.label {
                Some(s) => Some(s@),
                None => None,
            },
        }
    }
}

impl Clone for EncryptionConfig {
    fn clone(&self) -> (copy: Self)
        ensures
            copy@ == self@,
    {
        let label = match &self.label {
            Some(s) => Some(s.clone()),
            None => None,
        };
        EncryptionConfig {
            algorithm: self.algorithm,
            kdf: self.kdf,
            sector_size: self.sector_size,
            label,
        }
    }
}

/// Whether a device holds a volume of this library.
#[derive(Debug, Clone, Copy, PartialEq, Eq, Structural)]
pub enum VolumeStatus {
    Encrypted,
    NotEncrypted,
    EncryptionInProgress,
}

/// Errors of this library.
#[derive(Debug)]
pub enum CrossCryptError {
    Io(std::io::Error),
    Crypto(String),
    InvalidPassword,
    VolumeLocked,
    EncryptionInProgress,
    DeviceNotFound(String),
    PlatformError(String),
}

/// The message `"{prefix}{got}, expected {expected}"`, as characters.
pub open spec fn size_mismatch_text(prefix: Seq<char>, got: usize, expected: usize) -> Seq<char> {
    prefix + decimal_text(got as u64) + ", expected "@ + decimal_text(expected as u64)
}

/// The message `"{prefix}{got}, expected {expected}"`.
pub(crate) fn size_mismatch_message(prefix: &str, got: usize, expected: usize) -> (msg: String)
    ensures
        msg@ == size_mismatch_text(prefix@, got, expected),
{
    let mut msg = String::from_str(prefix);
    let got_text = u64_to_text(got as u64);
    msg.append(got_text.as_str());
    msg.append(", expected ");
    let expected_text = u64_to_text(expected as u64);
    msg.append(expected_text.as_str());
    msg
}

/// Whole seconds since the Unix epoch by the system clock; a clock set before
/// 1970 reads as 0.
pub(crate) fn unix_time_now() -> u64 {
    match clock_seconds() {
        Some(secs) => secs,
        None => 0,
    }
}

} // verus!
