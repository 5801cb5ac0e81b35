//! File-system types shared by the platform file-system drivers.
use vstd::prelude::*;

verus! {

/// File attributes.
#[derive(Debug, Clone, Copy)]
pub struct FileAttr {
    pub size: u64,
    pub blocks: u64,
    pub atime: std::time::SystemTime,
    pub mtime: std::time::SystemTime,
    pub ctime: std::time::SystemTime,
    pub crtime: std::time::SystemTime,
    pub kind: FileType,
    pub perm: u16,
    pub nlink: u32,
    pub uid: u32,
    pub gid: u32,
    pub rdev: u32,
    pub flags: u32,
}

/// Kinds of files.
#[derive(Debug, Clone, Copy, PartialEq, Eq, Structural)]
pub enum FileType {
    RegularFile,
    Directory,
    Symlink,
    BlockDevice,
    CharDevice,
    NamedPipe,
    Socket,
}

/// File-system statistics.
#[derive(Debug, Clone, Copy, PartialEq, Eq, Structural)]
pub struct Statfs {
    pub blocks: u64,
    pub bfree: u64,
    pub bavail: u64,
    pub files: u64,
    pub ffree: u64,
    pub bsize: u32,
    pub namelen: u32,
    pub frsize: u32,
}

/// The NTFS file-system driver for encrypted volumes; it holds no state yet.
pub struct NtfsEncryptFs {}

impl NtfsEncryptFs {
    /// Creates the driver.
    pub fn new() -> (fs: Self) {
        NtfsEncryptFs {}
    }
}

} // verus!
