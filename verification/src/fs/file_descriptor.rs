use vstd::prelude::*;
use crate::fs::vfs::VfsNode;
use crate::sys::FileOpenFlags;

verus! {

/// What an open descriptor refers to.
#[derive(Debug, Clone, Copy, PartialEq, Eq, Structural)]
pub enum FileKind {
    Tty,
    File { node: VfsNode },
    Dir { node: VfsNode },
}

/// An open file: what it refers to, the position, the open flags and the
/// contents read so far.
#[derive(Debug, Clone)]
pub struct OpenFile {
    pub kind: FileKind,
    pub offset: usize,
    pub flags: FileOpenFlags,
    pub cache: Option<Vec<u8>>,
}

} // verus!
