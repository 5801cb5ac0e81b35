//! The file-system layer: block geometry, the block cache and the NTFS parser.
pub mod block;
pub mod cache;
pub mod encrypt_fs;
pub mod ntfs;


