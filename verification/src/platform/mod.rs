//! The platform layer: the file-system front ends and the choice of a drive
//! letter. Mounting itself is done by the program around the library.
use vstd::prelude::*;

verus! {

/// The first drive letter a volume may take.
pub const FIRST_DRIVE: u8 = 0x44;

/// The last drive letter a volume may take.
pub const LAST_DRIVE: u8 = 0x5A;

/// The drive letter a volume can take: the first of `D` to `Z` not in use,
/// where `in_use[i]` tells whether letter `D + i` is taken; `None` when every
/// letter is.
pub fn find_available_drive(in_use: &[bool]) -> (letter: Option<u8>)
    requires
        in_use@.len() == (LAST_DRIVE - FIRST_DRIVE + 1) as nat,
    ensures
        match letter {
            Some(l) => {
                &&& FIRST_DRIVE <= l <= LAST_DRIVE
                &&& !in_use@[l - FIRST_DRIVE]
                &&& forall|i: int| 0 <= i < l - FIRST_DRIVE ==> in_use@[i]
            },
            None => forall|i: int| 0 <= i < in_use@.len() ==> in_use@[i],
        },
{
    let mut i: usize = 0;
    while i < in_use.len()
        invariant
            0 <= i <= in_use@.len(),
            in_use@.len() == (LAST_DRIVE - FIRST_DRIVE + 1) as nat,
            forall|j: int| 0 <= j < i ==> in_use@[j],
        decreases in_use@.len() - i,
    {
        if !in_use[i] {
            return Some(FIRST_DRIVE + i as u8);
        }
        i = i + 1;
    }
    None
}

/// The macFUSE file-system front end.
pub struct MacFuseFilesystem;

impl MacFuseFilesystem {
    /// The front end.
    pub fn new() -> (fs: Self) {
        MacFuseFilesystem
    }
}

/// The WinFsp file-system front end.
pub struct WinFspFilesystem {}

impl WinFspFilesystem {
    /// The front end.
    pub fn new() -> (fs: Self) {
        WinFspFilesystem {}
    }
}

} // verus!
