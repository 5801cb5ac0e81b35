//! Portable disk encryption: AES-256-XTS sector encryption, Argon2id password
//! derivation, a ChaCha20-Poly1305 wrapped master key, the volume header with its
//! brute-force lockout policy, a block cache and a read-only NTFS parser.
pub mod engine;
pub mod fs;
pub mod platform;
