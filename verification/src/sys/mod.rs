pub mod errors;
pub mod print;
pub mod syscall;
pub mod wrappers;

use vstd::prelude::*;

verus! {

pub const IOCTL_TTY_GET_FLAGS: u64 = 1;
pub const IOCTL_TTY_SET_FLAGS: u64 = 2;

pub const MAX_ARGS: usize = 12;
pub const MAX_ARG_LEN: usize = 128;

/// The flags a file is opened with, one bit each.
#[derive(Debug, Clone, Copy, PartialEq, Eq, Structural)]
pub struct FileOpenFlags {
    pub bits: u64,
}

/// All bits that name a known open flag.
pub const FILE_OPEN_FLAGS_ALL: u64 = 0x3f;

impl FileOpenFlags {
    pub const READ: u64 = 1;
    pub const WRITE: u64 = 2;
    pub const EXECUTE: u64 = 4;
    pub const CREATE: u64 = 8;
    pub const APPEND: u64 = 16;
    pub const TRUNCATE: u64 = 32;

    pub fn bits(&self) -> (r: u64)
        ensures
            r == self.bits,
    {
        self.bits
    }

    /// The flags with exactly these bits, if every bit names a flag.
    pub fn from_bits(bits: u64) -> (r: Option<FileOpenFlags>)
        ensures
            r == (if bits & !FILE_OPEN_FLAGS_ALL == 0 {
                Some(FileOpenFlags { bits })
            } else {
                None
            }),
    {
        if bits & !FILE_OPEN_FLAGS_ALL == 0 {
            Some(FileOpenFlags { bits })
        } else {
            None
        }
    }

    pub open spec fn spec_contains(self, flags: u64) -> bool {
        self.bits & flags == flags
    }

    /// Every flag set in `flags` is set in `self`.
    pub fn contains(&self, flags: u64) -> (r: bool)
        ensures
            r == self.spec_contains(flags),
    {
        self.bits & flags == flags
    }
}

} // verus!
