pub mod file_ops;
pub mod helpers;
pub mod syscall_impl;
pub mod syscall_dispatch;

use vstd::prelude::*;

verus! {

pub const ARCH_SET_GS: i32 = 0x1001;
pub const ARCH_SET_FS: i32 = 0x1002;
pub const ARCH_GET_FS: i32 = 0x1003;
pub const ARCH_GET_GS: i32 = 0x1004;

pub const IOV_MAX: usize = 1024;

pub const TIOCGWINSZ: i32 = 0x5413;

/// One element of a gather-write request.
#[derive(Clone, Copy, Debug)]
pub struct Iovec {
    pub base: u64,
    pub len: u64,
}

/// Terminal size as reported to user space.
#[derive(Clone, Copy, Debug)]
pub struct Winsize {
    pub rows: i16,
    pub cols: i16,
    pub xpixel: i16,
    pub ypixel: i16,
}

} // verus!
